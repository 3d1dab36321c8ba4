//! Prediction records and the task manifests that hold them.
use vstd::prelude::*;
use crate::agent::digest::{CacheDigest, DigestView, digests, same_digest, is_lower_hex};
use crate::text::chars_of;

verus! {

/// Version of the task action-manifest format this library writes.
pub const TASK_ACTION_MANIFEST_VERSION: u8 = 1;

/// Most predictions one task manifest holds.
pub const MAX_TASK_ACTION_PREDICTIONS: usize = 16384;

/// What an adapter learned from one compilation: the invocation it saw, the
/// action that invocation resolved to, and adapter-owned detail.
#[derive(Debug, PartialEq, Eq)]
pub struct ActionPrediction {
    /// Digest of the compiler invocation without discovered inputs.
    pub invocation: CacheDigest,
    /// Action digest the invocation resolved to.
    pub action: CacheDigest,
    /// Adapter that recorded the prediction, such as `rustc` or `cc`.
    pub adapter: String,
    /// Adapter-owned JSON payload.
    pub payload: String,
}

/// A prediction as plain values.
pub ghost struct PredictionView {
    pub invocation: DigestView,
    pub action: DigestView,
    pub adapter: Seq<char>,
    pub payload: Seq<char>,
}

impl View for ActionPrediction {
    type V = PredictionView;

    open spec fn view(&self) -> PredictionView {
        PredictionView {
            invocation: self.invocation@,
            action: self.action@,
            adapter: self.adapter@,
            payload: self.payload@,
        }
    }
}

impl Clone for ActionPrediction {
    fn clone(&self) -> (r: Self)
        ensures
            r == *self,
    {
        ActionPrediction {
            invocation: self.invocation.clone(),
            action: self.action.clone(),
            adapter: self.adapter.clone(),
            payload: self.payload.clone(),
        }
    }
}

/// The predictions recorded for one task, oldest first.
#[derive(Debug, PartialEq, Eq)]
pub struct TaskActionManifest {
    /// Manifest format version.
    pub version: u8,
    /// Task identity the manifest belongs to.
    pub task: String,
    /// Predictions, least recently refreshed first.
    pub predictions: Vec<ActionPrediction>,
}

impl Clone for TaskActionManifest {
    fn clone(&self) -> (r: Self)
        ensures
            r.version == self.version,
            r.task@ == self.task@,
            prediction_views(r.predictions@) == prediction_views(self.predictions@),
    {
        TaskActionManifest {
            version: self.version,
            task: self.task.clone(),
            predictions: clone_predictions(&self.predictions),
        }
    }
}

/// Predictions taken as plain values.
pub open spec fn prediction_views(ps: Seq<ActionPrediction>) -> Seq<PredictionView> {
    ps.map_values(|p: ActionPrediction| p@)
}

/// The invocations of a run of predictions, in order.
pub open spec fn invocations(ps: Seq<PredictionView>) -> Seq<DigestView> {
    ps.map_values(|p: PredictionView| p.invocation)
}

/// Whether `task` is a task identity: 64 lowercase hexadecimal digits.
pub open spec fn is_task_identity_text(task: Seq<char>) -> bool {
    task.len() == 64 && forall|i: int| 0 <= i < 64 ==> is_lower_hex(#[trigger] task[i])
}

/// Whether a manifest is one this library reads: current format, within the
/// prediction limit, and with no invocation predicted twice.
pub open spec fn is_valid_manifest(version: u8, predictions: Seq<PredictionView>) -> bool {
    &&& version == TASK_ACTION_MANIFEST_VERSION
    &&& predictions.len() <= MAX_TASK_ACTION_PREDICTIONS
    &&& invocations(predictions).no_duplicates()
}

/// Copies of every prediction, in order.
pub fn clone_predictions(ps: &Vec<ActionPrediction>) -> (r: Vec<ActionPrediction>)
    ensures
        prediction_views(r@) == prediction_views(ps@),
{
    let mut r: Vec<ActionPrediction> = Vec::new();
    let mut i: usize = 0;
    while i < ps.len()
        invariant
            i <= ps.len(),
            prediction_views(r@) == prediction_views(ps@.take(i as int)),
        decreases ps.len() - i,
    {
        r.push(ps[i].clone());
        assert(prediction_views(ps@.take(i + 1)) == prediction_views(ps@.take(i as int)).push(ps@[i as int]@));
        i = i + 1;
    }
    assert(ps@.take(ps.len() as int) == ps@);
    r
}

/// Whether two predictions agree in every field.
pub fn same_prediction(a: &ActionPrediction, b: &ActionPrediction) -> (r: bool)
    ensures
        r == (a@ == b@),
{
    same_digest(&a.invocation, &b.invocation) && same_digest(&a.action, &b.action)
        && a.adapter == b.adapter && a.payload == b.payload
}

/// Whether `task` is a well-formed task action identity.
///
/// Identities name files and directories in the store, so anything that reads
/// the store back has to be able to tell an identity from whatever else a user
/// left lying there.
pub fn is_task_identity(task: &str) -> (r: bool)
    ensures
        r == is_task_identity_text(task@),
{
    let chars = chars_of(task);
    if chars.len() != 64 {
        return false;
    }
    let mut i: usize = 0;
    while i < 64
        invariant
            chars@ == task@,
            chars@.len() == 64,
            i <= 64,
            forall|j: int| 0 <= j < i ==> is_lower_hex(#[trigger] chars@[j]),
        decreases 64 - i,
    {
        let c = chars[i];
        if !(('0' <= c && c <= '9') || ('a' <= c && c <= 'f')) {
            return false;
        }
        i = i + 1;
    }
    true
}

/// Whether no two predictions share an invocation.
pub fn distinct_invocations(ps: &Vec<ActionPrediction>) -> (r: bool)
    ensures
        r == invocations(prediction_views(ps@)).no_duplicates(),
{
    let ghost keys = invocations(prediction_views(ps@));
    let mut i: usize = 0;
    while i < ps.len()
        invariant
            i <= ps.len(),
            keys == invocations(prediction_views(ps@)),
            keys.len() == ps.len(),
            forall|a: int, b: int| 0 <= a < b < i ==> keys[a] != keys[b],
        decreases ps.len() - i,
    {
        let mut j: usize = 0;
        while j < i
            invariant
                j <= i < ps.len(),
                keys == invocations(prediction_views(ps@)),
                keys.len() == ps.len(),
                forall|a: int| 0 <= a < j ==> keys[a] != keys[i as int],
            decreases i - j,
        {
            if same_digest(&ps[j].invocation, &ps[i].invocation) {
                assert(keys[j as int] == keys[i as int]);
                return false;
            }
            j = j + 1;
        }
        i = i + 1;
    }
    true
}

impl TaskActionManifest {
    /// Whether this manifest is current, bounded and unambiguous, see
    /// [`is_valid_manifest`].
    pub fn validate(&self) -> (r: bool)
        ensures
            r == is_valid_manifest(self.version, prediction_views(self.predictions@)),
    {
        self.version == TASK_ACTION_MANIFEST_VERSION
            && self.predictions.len() <= MAX_TASK_ACTION_PREDICTIONS
            && distinct_invocations(&self.predictions)
    }
}

} // verus!
