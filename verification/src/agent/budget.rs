//! The cumulative remote-download budget of one session: every download
//! reserves its bytes before it starts, gives back what it did not use when
//! it completes, and gives back everything when it is abandoned.
use vstd::prelude::*;

verus! {

/// The download budget a remote session gets unless it names one.
pub const DEFAULT_MAX_REMOTE_DOWNLOAD_BYTES: u64 = 5368709120;

/// Why a reservation was refused.
#[derive(Debug, Clone, Copy, PartialEq, Eq, Structural)]
pub enum BudgetError {
    /// The requested bytes and those in use do not fit in 64 bits.
    Overflowed,
    /// The requested bytes do not fit in what is left of the budget.
    Exceeded { requested: u64, used: u64, limit: u64 },
}

impl BudgetError {
    /// A short explanation.
    pub fn message(&self) -> (r: String)
        ensures
            r@ == match self {
                BudgetError::Overflowed => "remote cache download budget overflowed"@,
                BudgetError::Exceeded { .. } => "remote cache download budget exceeded"@,
            },
    {
        proof {
            reveal_strlit("remote cache download budget overflowed");
            reveal_strlit("remote cache download budget exceeded");
        }
        match self {
            BudgetError::Overflowed => String::from_str("remote cache download budget overflowed"),
            BudgetError::Exceeded { .. } => String::from_str("remote cache download budget exceeded"),
        }
    }
}

/// Bytes set aside for one download.
#[derive(Debug)]
pub struct DownloadReservation {
    reserved: u64,
}

impl DownloadReservation {
    /// The bytes this reservation holds.
    pub closed spec fn spec_bytes(&self) -> u64 {
        self.reserved
    }

    /// The bytes this reservation holds.
    pub fn bytes(&self) -> (r: u64)
        ensures
            r == self.spec_bytes(),
    {
        self.reserved
    }
}

/// A session's download budget: bytes in use, by downloads in flight and
/// completed, never more than the limit.
#[derive(Debug)]
pub struct DownloadBudget {
    used: u64,
    limit: u64,
}

impl DownloadBudget {
    /// Bytes in use.
    pub closed spec fn spec_used(&self) -> u64 {
        self.used
    }

    /// The session's limit.
    pub closed spec fn spec_limit(&self) -> u64 {
        self.limit
    }

    /// The budget holds no more than its limit.
    pub open spec fn wf(&self) -> bool {
        self.spec_used() <= self.spec_limit()
    }

    /// A budget of `limit` bytes with nothing in use.
    pub fn new(limit: u64) -> (r: Self)
        ensures
            r.wf(),
            r.spec_used() == 0,
            r.spec_limit() == limit,
    {
        DownloadBudget { used: 0, limit }
    }

    /// Bytes in use.
    pub fn used(&self) -> (r: u64)
        ensures
            r == self.spec_used(),
    {
        self.used
    }

    /// Reserve exactly `bytes`, or refuse when they do not fit.
    pub fn reserve(&mut self, bytes: u64) -> (r: Result<DownloadReservation, BudgetError>)
        requires
            old(self).wf(),
        ensures
            final(self).wf(),
            final(self).spec_limit() == old(self).spec_limit(),
            old(self).spec_used() + bytes <= old(self).spec_limit() <==> r is Ok,
            r matches Ok(x) ==> x.spec_bytes() == bytes && final(self).spec_used() == old(self).spec_used() + bytes,
            r is Err ==> final(self).spec_used() == old(self).spec_used(),
            r matches Err(e) ==> (e == (if old(self).spec_used() + bytes > u64::MAX {
                BudgetError::Overflowed
            } else {
                BudgetError::Exceeded { requested: bytes, used: old(self).spec_used(), limit: old(self).spec_limit() }
            })),
    {
        match self.used.checked_add(bytes) {
            None => Err(BudgetError::Overflowed),
            Some(next) => {
                if next > self.limit {
                    Err(BudgetError::Exceeded { requested: bytes, used: self.used, limit: self.limit })
                } else {
                    self.used = next;
                    Ok(DownloadReservation { reserved: bytes })
                }
            },
        }
    }

    /// Reserve as much of `requested` as is left.
    pub fn reserve_up_to(&mut self, requested: u64) -> (r: DownloadReservation)
        requires
            old(self).wf(),
        ensures
            final(self).wf(),
            final(self).spec_limit() == old(self).spec_limit(),
            r.spec_bytes() == (if requested <= old(self).spec_limit() - old(self).spec_used() {
                requested
            } else {
                (old(self).spec_limit() - old(self).spec_used()) as u64
            }),
            final(self).spec_used() == old(self).spec_used() + r.spec_bytes(),
    {
        let left = self.limit - self.used;
        let reserved = if requested <= left { requested } else { left };
        self.used = self.used + reserved;
        DownloadReservation { reserved }
    }

    /// Complete a download that took `bytes` of its reservation, giving
    /// back the rest.
    pub fn commit(&mut self, reservation: DownloadReservation, bytes: u64)
        requires
            old(self).wf(),
            bytes <= reservation.spec_bytes(),
            reservation.spec_bytes() <= old(self).spec_used(),
        ensures
            final(self).wf(),
            final(self).spec_limit() == old(self).spec_limit(),
            final(self).spec_used() == old(self).spec_used() - (reservation.spec_bytes() - bytes),
    {
        self.used = self.used - (reservation.reserved - bytes);
    }

    /// Abandon a download, giving back its whole reservation.
    pub fn release(&mut self, reservation: DownloadReservation)
        requires
            old(self).wf(),
            reservation.spec_bytes() <= old(self).spec_used(),
        ensures
            final(self).wf(),
            final(self).spec_limit() == old(self).spec_limit(),
            final(self).spec_used() == old(self).spec_used() - reservation.spec_bytes(),
    {
        self.used = self.used - reservation.reserved;
    }
}

/// Abandoning a reservation gives the budget back as it was before the
/// reservation: `reserved` is `before` after a successful reserve of `r`,
/// and `released` is `reserved` after releasing `r`.
pub proof fn lemma_release_undoes_reserve(before: DownloadBudget, reserved: DownloadBudget, released: DownloadBudget, r: DownloadReservation)
    requires
        before.wf(),
        reserved.spec_used() == before.spec_used() + r.spec_bytes(),
        reserved.spec_limit() == before.spec_limit(),
        released.spec_used() == reserved.spec_used() - r.spec_bytes(),
        released.spec_limit() == reserved.spec_limit(),
    ensures
        released.spec_used() == before.spec_used(),
        released.spec_limit() == before.spec_limit(),
        released.wf(),
{
}

} // verus!
