//! Executable identities the clients of one session observed: what an
//! identity probe of a compiler printed, keyed by the executable and the
//! environment that selects what the probe reports, within fixed bounds.
use vstd::prelude::*;
use crate::path::same_path;
use crate::agent::file_digest::paths_equal;
use crate::text::{chars_of, eq_lit, is_one_of};

verus! {

/// Most identities one session keeps.
pub const MAX_EXECUTABLE_IDENTITIES: usize = 64;

/// Most bytes one identity may hold.
pub const MAX_EXECUTABLE_IDENTITY_SIZE: usize = 65536;

/// Most bytes all identities of one session may hold together.
pub const MAX_EXECUTABLE_IDENTITY_BYTES: usize = 262144;

/// The environment variables that select what an identity probe reports:
/// the toolchain rustup resolves, the SDK a linker driver builds against,
/// and a `-fuse-ld` linker selection. Any other name would let one key
/// stand for two different compilers.
pub open spec fn identity_environment_names() -> Seq<Seq<char>> {
    seq![
        "COMPILER_PATH"@, "MBX_FUSE_LD"@, "RUSTUP_HOME"@, "RUSTUP_TOOLCHAIN"@, "SDKROOT"@,
        "MACOSX_DEPLOYMENT_TARGET"@, "LIB"@, "UCRTVersion"@, "UniversalCRTSdkDir"@, "VCToolsInstallDir"@,
        "VCToolsVersion"@, "WindowsSdkDir"@, "WindowsSDKVersion"@,
    ]
}

/// An environment as plain values: names and values, in the key's order.
pub open spec fn env_view(environment: Seq<(String, Option<String>)>) -> Seq<(Seq<char>, Option<Seq<char>>)> {
    environment.map_values(|e: (String, Option<String>)| (e.0@, match e.1 { Some(v) => Some(v@), None => None }))
}

/// What keys an identity: the executable and the environment that selects
/// what its probe reports (name-ordered, as a sorted map lists it).
#[derive(Debug)]
pub struct ExecutableIdentityKey {
    /// Path of the executable.
    pub executable: String,
    /// Selecting environment variables and their values, `None` for unset.
    pub environment: Vec<(String, Option<String>)>,
}

/// A key as plain values.
pub ghost struct KeyView {
    pub executable: Seq<char>,
    pub environment: Seq<(Seq<char>, Option<Seq<char>>)>,
}

impl View for ExecutableIdentityKey {
    type V = KeyView;

    open spec fn view(&self) -> KeyView {
        KeyView { executable: self.executable@, environment: env_view(self.environment@) }
    }
}

/// Whether two keys name the same identity: the same executable, paths
/// compared component by component, and the same environment.
pub open spec fn same_key(a: KeyView, b: KeyView) -> bool {
    same_path(a.executable, b.executable) && a.environment == b.environment
}

/// Whether every name of an environment selects what the probe reports.
pub open spec fn environment_supported(environment: Seq<(Seq<char>, Option<Seq<char>>)>) -> bool {
    forall|i: int| 0 <= i < environment.len() ==> identity_environment_names().contains(#[trigger] environment[i].0)
}

/// Why an identity was refused.
#[derive(Debug, Clone, Copy, PartialEq, Eq, Structural)]
pub enum IdentityError {
    /// The identity holds more than [`MAX_EXECUTABLE_IDENTITY_SIZE`] bytes.
    TooLarge,
    /// The key names an environment variable that does not select the answer.
    UnsupportedEnvironment,
    /// A new key would take the session past [`MAX_EXECUTABLE_IDENTITIES`].
    TooManyEntries,
    /// The identities would hold more than [`MAX_EXECUTABLE_IDENTITY_BYTES`].
    TooManyBytes,
}

impl IdentityError {
    /// The refusal as a sentence.
    pub fn message(&self) -> (r: String)
        ensures
            r@ == match self {
                IdentityError::TooLarge => "executable identity exceeds 65536 bytes"@,
                IdentityError::UnsupportedEnvironment => "executable identity contains an unsupported environment variable"@,
                IdentityError::TooManyEntries => "executable identity cache contains too many entries"@,
                IdentityError::TooManyBytes => "executable identity cache contains too many bytes"@,
            },
    {
        proof {
            reveal_strlit("executable identity exceeds 65536 bytes");
            reveal_strlit("executable identity contains an unsupported environment variable");
            reveal_strlit("executable identity cache contains too many entries");
            reveal_strlit("executable identity cache contains too many bytes");
        }
        match self {
            IdentityError::TooLarge => String::from_str("executable identity exceeds 65536 bytes"),
            IdentityError::UnsupportedEnvironment => String::from_str(
                "executable identity contains an unsupported environment variable",
            ),
            IdentityError::TooManyEntries => String::from_str("executable identity cache contains too many entries"),
            IdentityError::TooManyBytes => String::from_str("executable identity cache contains too many bytes"),
        }
    }
}

/// Whether every name of `environment` selects what the probe reports.
pub fn supported_environment(environment: &Vec<(String, Option<String>)>) -> (r: bool)
    ensures
        r == environment_supported(env_view(environment@)),
{
    let names: [&str; 13] = [
        "COMPILER_PATH", "MBX_FUSE_LD", "RUSTUP_HOME", "RUSTUP_TOOLCHAIN", "SDKROOT", "MACOSX_DEPLOYMENT_TARGET",
        "LIB", "UCRTVersion", "UniversalCRTSdkDir", "VCToolsInstallDir", "VCToolsVersion", "WindowsSdkDir",
        "WindowsSDKVersion",
    ];
    assert(names@.map_values(|s: &str| s@) =~= identity_environment_names());
    let ghost ev = env_view(environment@);
    let mut i: usize = 0;
    while i < environment.len()
        invariant
            i <= environment.len(),
            ev == env_view(environment@),
            names@.map_values(|s: &str| s@) == identity_environment_names(),
            forall|j: int| 0 <= j < i ==> identity_environment_names().contains(#[trigger] ev[j].0),
        decreases environment.len() - i,
    {
        let name = chars_of(environment[i].0.as_str());
        assert(ev[i as int].0 == name@);
        if !is_one_of(&name, &names) {
            return false;
        }
        i = i + 1;
    }
    true
}

fn same_value(a: &Option<String>, b: &Option<String>) -> (r: bool)
    ensures
        r == ((match *a { Some(v) => Some(v@), None => None::<Seq<char>> }) == (match *b { Some(v) => Some(v@), None => None::<Seq<char>> })),
{
    match (a, b) {
        (None, None) => true,
        (Some(x), Some(y)) => *x == *y,
        _ => false,
    }
}

fn keys_match(a: &ExecutableIdentityKey, b: &ExecutableIdentityKey) -> (r: bool)
    ensures
        r == same_key(a@, b@),
{
    if !paths_equal(a.executable.as_str(), b.executable.as_str()) {
        return false;
    }
    let ghost av = env_view(a.environment@);
    let ghost bv = env_view(b.environment@);
    if a.environment.len() != b.environment.len() {
        assert(av.len() != bv.len());
        return false;
    }
    let mut i: usize = 0;
    while i < a.environment.len()
        invariant
            i <= a.environment.len(),
            a.environment.len() == b.environment.len(),
            av == env_view(a.environment@),
            bv == env_view(b.environment@),
            forall|j: int| 0 <= j < i ==> av[j] == bv[j],
        decreases a.environment.len() - i,
    {
        let same = a.environment[i].0 == b.environment[i].0 && same_value(&a.environment[i].1, &b.environment[i].1);
        if !same {
            assert(av[i as int] != bv[i as int]);
            return false;
        }
        i = i + 1;
    }
    assert(av =~= bv);
    true
}

fn copy_key(k: &ExecutableIdentityKey) -> (r: ExecutableIdentityKey)
    ensures
        r@ == k@,
{
    let mut environment: Vec<(String, Option<String>)> = Vec::new();
    let mut i: usize = 0;
    while i < k.environment.len()
        invariant
            i <= k.environment.len(),
            env_view(environment@) == env_view(k.environment@).take(i as int),
        decreases k.environment.len() - i,
    {
        let value = match &k.environment[i].1 {
            Some(v) => Some(v.clone()),
            None => None,
        };
        let ghost before = env_view(environment@);
        environment.push((k.environment[i].0.clone(), value));
        assert(env_view(environment@) =~= before.push(env_view(k.environment@)[i as int]));
        assert(env_view(k.environment@).take(i + 1) =~= env_view(k.environment@).take(i as int).push(env_view(k.environment@)[i as int]));
        i = i + 1;
    }
    assert(env_view(k.environment@).take(k.environment.len() as int) =~= env_view(k.environment@));
    ExecutableIdentityKey { executable: k.executable.clone(), environment }
}

/// The bytes all of `entries` hold.
pub open spec fn retained(entries: Seq<(KeyView, Seq<u8>)>) -> nat
    decreases entries.len(),
{
    if entries.len() == 0 {
        0
    } else {
        retained(entries.drop_last()) + entries.last().1.len()
    }
}

/// No two entries share a key.
pub open spec fn keys_distinct(entries: Seq<(KeyView, Seq<u8>)>) -> bool {
    forall|i: int, j: int| 0 <= i < j < entries.len() ==> !same_key(#[trigger] entries[i].0, #[trigger] entries[j].0)
}

/// What `entries` hold for `key`, if anything.
pub open spec fn recalled(entries: Seq<(KeyView, Seq<u8>)>, key: KeyView) -> Option<Seq<u8>> {
    if exists|i: int| 0 <= i < entries.len() && same_key(#[trigger] entries[i].0, key) {
        Some(entries[choose|i: int| 0 <= i < entries.len() && same_key(#[trigger] entries[i].0, key)].1)
    } else {
        None
    }
}

proof fn lemma_retained_push(es: Seq<(KeyView, Seq<u8>)>, x: (KeyView, Seq<u8>))
    ensures
        retained(es.push(x)) == retained(es) + x.1.len(),
{
    assert(es.push(x).drop_last() =~= es);
}

proof fn lemma_retained_remove(es: Seq<(KeyView, Seq<u8>)>, i: int)
    requires
        0 <= i < es.len(),
    ensures
        retained(es.remove(i)) + es[i].1.len() == retained(es),
    decreases es.len(),
{
    if i == es.len() - 1 {
        assert(es.remove(i) =~= es.drop_last());
    } else {
        lemma_retained_remove(es.drop_last(), i);
        assert(es.remove(i) =~= es.drop_last().remove(i).push(es.last()));
        lemma_retained_push(es.drop_last().remove(i), es.last());
    }
}

proof fn lemma_retained_prefix(es: Seq<(KeyView, Seq<u8>)>, n: int)
    requires
        0 <= n <= es.len(),
    ensures
        retained(es.take(n)) <= retained(es),
    decreases es.len() - n,
{
    if n < es.len() {
        lemma_retained_prefix(es, n + 1);
        assert(es.take(n + 1).drop_last() =~= es.take(n));
    } else {
        assert(es.take(n) =~= es);
    }
}

proof fn lemma_same_key_equivalence(a: KeyView, b: KeyView, c: KeyView)
    ensures
        same_key(a, a),
        same_key(a, b) ==> same_key(b, a),
        same_key(a, b) && same_key(b, c) ==> same_key(a, c),
{
}

/// The identities one session keeps.
pub struct ExecutableIdentities {
    entries: Vec<(ExecutableIdentityKey, Vec<u8>)>,
}

impl ExecutableIdentities {
    /// The entries as plain values.
    pub closed spec fn spec_entries(&self) -> Seq<(KeyView, Seq<u8>)> {
        self.entries@.map_values(|e: (ExecutableIdentityKey, Vec<u8>)| (e.0@, e.1@))
    }

    /// Keys are distinct, and the bounds hold.
    pub open spec fn wf(&self) -> bool {
        &&& keys_distinct(self.spec_entries())
        &&& self.spec_entries().len() <= MAX_EXECUTABLE_IDENTITIES
        &&& retained(self.spec_entries()) <= MAX_EXECUTABLE_IDENTITY_BYTES
    }

    /// No identities.
    pub fn new() -> (r: Self)
        ensures
            r.wf(),
            r.spec_entries().len() == 0,
    {
        let r = ExecutableIdentities { entries: Vec::new() };
        assert(r.spec_entries() =~= Seq::<(KeyView, Seq<u8>)>::empty());
        r
    }

    fn index_of(&self, key: &ExecutableIdentityKey) -> (r: Option<usize>)
        ensures
            match r {
                Some(i) => i < self.spec_entries().len() && same_key(self.spec_entries()[i as int].0, key@),
                None => forall|i: int| 0 <= i < self.spec_entries().len() ==> !same_key(#[trigger] self.spec_entries()[i].0, key@),
            },
    {
        let ghost es = self.spec_entries();
        let mut i: usize = 0;
        while i < self.entries.len()
            invariant
                i <= self.entries.len(),
                es == self.spec_entries(),
                es.len() == self.entries.len(),
                forall|j: int| 0 <= j < i ==> !same_key(#[trigger] es[j].0, key@),
            decreases self.entries.len() - i,
        {
            assert(es[i as int].0 == self.entries@[i as int].0@);
            if keys_match(&self.entries[i].0, key) {
                return Some(i);
            }
            i = i + 1;
        }
        None
    }

    /// What the session holds for `key`.
    pub fn find(&self, key: &ExecutableIdentityKey) -> (r: Option<Vec<u8>>)
        requires
            self.wf(),
        ensures
            match r {
                Some(s) => recalled(self.spec_entries(), key@) == Some(s@),
                None => recalled(self.spec_entries(), key@) == None::<Seq<u8>>,
            },
    {
        let ghost es = self.spec_entries();
        match self.index_of(key) {
            Some(i) => {
                proof {
                    let c = choose|j: int| 0 <= j < es.len() && same_key(#[trigger] es[j].0, key@);
                    if c != i {
                        lemma_same_key_equivalence(es[c].0, key@, es[i as int].0);
                        lemma_same_key_equivalence(es[i as int].0, key@, es[c].0);
                        lemma_same_key_equivalence(key@, es[i as int].0, es[c].0);
                        if c < i {
                            assert(!same_key(es[c].0, es[i as int].0));
                        } else {
                            assert(!same_key(es[i as int].0, es[c].0));
                        }
                    }
                }
                assert(es[i as int].1 == self.entries@[i as int].1@);
                Some(self.entries[i].1.clone())
            },
            None => None,
        }
    }

    /// Keep `stdout` as the identity for `key`, replacing what the key held:
    /// refused when the identity is too large, the key's environment names
    /// a variable that does not select the answer, a new key would exceed
    /// the entry bound, or the session would hold too many bytes.
    pub fn store(&mut self, key: &ExecutableIdentityKey, stdout: &Vec<u8>) -> (r: Result<(), IdentityError>)
        requires
            old(self).wf(),
        ensures
            final(self).wf(),
            stdout.len() > MAX_EXECUTABLE_IDENTITY_SIZE ==> r == Err::<(), IdentityError>(IdentityError::TooLarge),
            stdout.len() <= MAX_EXECUTABLE_IDENTITY_SIZE && !environment_supported(key@.environment)
                ==> r == Err::<(), IdentityError>(IdentityError::UnsupportedEnvironment),
            stdout.len() <= MAX_EXECUTABLE_IDENTITY_SIZE && environment_supported(key@.environment)
                && recalled(old(self).spec_entries(), key@) is None
                && old(self).spec_entries().len() >= MAX_EXECUTABLE_IDENTITIES
                ==> r == Err::<(), IdentityError>(IdentityError::TooManyEntries),
            stdout.len() <= MAX_EXECUTABLE_IDENTITY_SIZE && environment_supported(key@.environment)
                && !(recalled(old(self).spec_entries(), key@) is None && old(self).spec_entries().len() >= MAX_EXECUTABLE_IDENTITIES)
                ==> (if retained(old(self).spec_entries()) - (match recalled(old(self).spec_entries(), key@) {
                    Some(s) => s.len() as int,
                    None => 0int,
                }) + stdout.len() <= MAX_EXECUTABLE_IDENTITY_BYTES {
                    r is Ok
                } else {
                    r == Err::<(), IdentityError>(IdentityError::TooManyBytes)
                }),
            r is Err ==> final(self).spec_entries() == old(self).spec_entries(),
            r is Ok ==> recalled(final(self).spec_entries(), key@) == Some(stdout@),
            r is Ok ==> forall|k: KeyView| !same_key(k, key@) ==> recalled(final(self).spec_entries(), k) == recalled(old(self).spec_entries(), k),
    {
        if stdout.len() > MAX_EXECUTABLE_IDENTITY_SIZE {
            return Err(IdentityError::TooLarge);
        }
        if !supported_environment(&key.environment) {
            return Err(IdentityError::UnsupportedEnvironment);
        }
        let ghost es = self.spec_entries();
        let found = self.index_of(key);
        // The bytes held now, and those the key held.
        let mut total: usize = 0;
        let mut j: usize = 0;
        while j < self.entries.len()
            invariant
                j <= self.entries.len(),
                es == self.spec_entries(),
                es.len() == self.entries.len(),
                retained(es) <= MAX_EXECUTABLE_IDENTITY_BYTES,
                total == retained(es.take(j as int)),
            decreases self.entries.len() - j,
        {
            proof {
                lemma_retained_prefix(es, j + 1);
                assert(es.take(j + 1).drop_last() =~= es.take(j as int));
                assert(es[j as int].1 == self.entries@[j as int].1@);
            }
            total = total + self.entries[j].1.len();
            j = j + 1;
        }
        assert(es.take(es.len() as int) =~= es);
        let ghost entry = (key@, stdout@);
        match found {
            Some(i) => {
                let previous = self.entries[i].1.len();
                proof {
                    lemma_retained_remove(es, i as int);
                    assert(es[i as int].1 == self.entries@[i as int].1@);
                    let c = choose|m: int| 0 <= m < es.len() && same_key(#[trigger] es[m].0, key@);
                    if c != i {
                        lemma_same_key_equivalence(es[c].0, key@, es[i as int].0);
                        lemma_same_key_equivalence(es[i as int].0, key@, es[c].0);
                        lemma_same_key_equivalence(key@, es[i as int].0, es[c].0);
                        if c < i {
                            assert(!same_key(es[c].0, es[i as int].0));
                        } else {
                            assert(!same_key(es[i as int].0, es[c].0));
                        }
                    }
                }
                if total - previous + stdout.len() > MAX_EXECUTABLE_IDENTITY_BYTES {
                    return Err(IdentityError::TooManyBytes);
                }
                let k = copy_key(key);
                self.entries.remove(i);
                self.entries.push((k, stdout.clone()));
                let ghost ns = self.spec_entries();
                assert(ns =~= es.remove(i as int).push(entry));
                proof {
                    lemma_retained_push(es.remove(i as int), entry);
                    self.lemma_stored(es, i as int, entry);
                }
            },
            None => {
                if self.entries.len() >= MAX_EXECUTABLE_IDENTITIES {
                    return Err(IdentityError::TooManyEntries);
                }
                if total + stdout.len() > MAX_EXECUTABLE_IDENTITY_BYTES {
                    return Err(IdentityError::TooManyBytes);
                }
                let k = copy_key(key);
                self.entries.push((k, stdout.clone()));
                let ghost ns = self.spec_entries();
                assert(ns =~= es.push(entry));
                proof {
                    lemma_retained_push(es, entry);
                    self.lemma_added(es, entry);
                }
            },
        }
        Ok(())
    }

    proof fn lemma_added(&self, es: Seq<(KeyView, Seq<u8>)>, entry: (KeyView, Seq<u8>))
        requires
            keys_distinct(es),
            forall|i: int| 0 <= i < es.len() ==> !same_key(#[trigger] es[i].0, entry.0),
            self.spec_entries() == es.push(entry),
        ensures
            keys_distinct(self.spec_entries()),
            recalled(self.spec_entries(), entry.0) == Some(entry.1),
            forall|k: KeyView| !same_key(k, entry.0) ==> recalled(self.spec_entries(), k) == recalled(es, k),
    {
        let ns = es.push(entry);
        assert forall|i: int, j: int| 0 <= i < j < ns.len() implies !same_key(#[trigger] ns[i].0, #[trigger] ns[j].0) by {
            if j == es.len() {
                assert(ns[i] == es[i]);
            } else {
                assert(ns[i] == es[i] && ns[j] == es[j]);
            }
        }
        lemma_same_key_equivalence(entry.0, entry.0, entry.0);
        assert(same_key(ns[es.len() as int].0, entry.0));
        let c = choose|m: int| 0 <= m < ns.len() && same_key(#[trigger] ns[m].0, entry.0);
        if c != es.len() {
            assert(ns[c] == es[c]);
        }
        assert forall|k: KeyView| !same_key(k, entry.0) implies recalled(ns, k) == recalled(es, k) by {
            lemma_same_key_equivalence(entry.0, k, k);
            if exists|m: int| 0 <= m < es.len() && same_key(#[trigger] es[m].0, k) {
                let w = choose|m: int| 0 <= m < es.len() && same_key(#[trigger] es[m].0, k);
                assert(ns[w] == es[w]);
                let cn = choose|m: int| 0 <= m < ns.len() && same_key(#[trigger] ns[m].0, k);
                let ce = choose|m: int| 0 <= m < es.len() && same_key(#[trigger] es[m].0, k);
                assert(cn != es.len());
                assert(ns[cn] == es[cn]);
                if cn != ce {
                    lemma_same_key_equivalence(es[cn].0, k, es[ce].0);
                    lemma_same_key_equivalence(k, es[ce].0, es[cn].0);
                    if cn < ce {
                        assert(!same_key(es[cn].0, es[ce].0));
                    } else {
                        assert(!same_key(es[ce].0, es[cn].0));
                    }
                }
            } else {
                assert forall|m: int| 0 <= m < ns.len() implies !same_key(#[trigger] ns[m].0, k) by {
                    if m < es.len() {
                        assert(ns[m] == es[m]);
                    }
                }
            }
        }
    }

    proof fn lemma_stored(&self, es: Seq<(KeyView, Seq<u8>)>, i: int, entry: (KeyView, Seq<u8>))
        requires
            keys_distinct(es),
            0 <= i < es.len(),
            same_key(es[i].0, entry.0),
            self.spec_entries() == es.remove(i).push(entry),
        ensures
            keys_distinct(self.spec_entries()),
            recalled(self.spec_entries(), entry.0) == Some(entry.1),
            forall|k: KeyView| !same_key(k, entry.0) ==> recalled(self.spec_entries(), k) == recalled(es, k),
    {
        let rs = es.remove(i);
        let ns = rs.push(entry);
        assert forall|a: int, b: int| 0 <= a < b < rs.len() implies !same_key(#[trigger] rs[a].0, #[trigger] rs[b].0) by {
            let ea = if a < i { a } else { a + 1 };
            let eb = if b < i { b } else { b + 1 };
            assert(rs[a] == es[ea] && rs[b] == es[eb]);
        }
        assert forall|m: int| 0 <= m < rs.len() implies !same_key(#[trigger] rs[m].0, entry.0) by {
            let em = if m < i { m } else { m + 1 };
            assert(rs[m] == es[em]);
            lemma_same_key_equivalence(es[em].0, entry.0, es[i].0);
            lemma_same_key_equivalence(es[i].0, entry.0, entry.0);
            lemma_same_key_equivalence(entry.0, es[i].0, es[i].0);
            if em < i {
                assert(!same_key(es[em].0, es[i].0));
            } else {
                assert(!same_key(es[i].0, es[em].0));
                lemma_same_key_equivalence(es[i].0, es[em].0, es[em].0);
            }
        }
        self.lemma_added(rs, entry);
        assert forall|k: KeyView| !same_key(k, entry.0) implies recalled(rs, k) == recalled(es, k) by {
            lemma_same_key_equivalence(es[i].0, entry.0, k);
            lemma_same_key_equivalence(entry.0, es[i].0, k);
            lemma_same_key_equivalence(k, es[i].0, entry.0);
            lemma_same_key_equivalence(es[i].0, k, entry.0);
            if exists|m: int| 0 <= m < es.len() && same_key(#[trigger] es[m].0, k) {
                let ce = choose|m: int| 0 <= m < es.len() && same_key(#[trigger] es[m].0, k);
                assert(ce != i);
                let rm = if ce < i { ce } else { ce - 1 };
                assert(rs[rm] == es[ce]);
                let cr = choose|m: int| 0 <= m < rs.len() && same_key(#[trigger] rs[m].0, k);
                let er = if cr < i { cr } else { cr + 1 };
                assert(rs[cr] == es[er]);
                if er != ce {
                    lemma_same_key_equivalence(es[er].0, k, es[ce].0);
                    lemma_same_key_equivalence(k, es[ce].0, es[er].0);
                    if er < ce {
                        assert(!same_key(es[er].0, es[ce].0));
                    } else {
                        assert(!same_key(es[ce].0, es[er].0));
                    }
                }
            } else {
                assert forall|m: int| 0 <= m < rs.len() implies !same_key(#[trigger] rs[m].0, k) by {
                    let em = if m < i { m } else { m + 1 };
                    assert(rs[m] == es[em]);
                }
            }
        }
    }
}

} // verus!
