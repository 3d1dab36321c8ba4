//! The agent's answers to the requests it settles from its session
//! statistics alone. The others need the store, the remote cache or the
//! connection, and the caller performs them.
use vstd::prelude::*;
use crate::agent::wire::{AgentRequest, AgentResponse};
use crate::agent::stats::{
    AgentStats, CompilerStats, compiler_in, count_in, known_outcome, sat, wrap, MAX_CRATE_NAME_BYTES,
};
use crate::text::{lit, string_of};
use vstd::utf8::encode_utf8;

verus! {

/// Whether a reported crate name is acceptable: at most 256 bytes, with no
/// NUL, newline or carriage return.
pub open spec fn crate_name_text_ok(name: Option<Seq<char>>) -> bool {
    match name {
        None => true,
        Some(n) => encode_utf8(n).len() <= MAX_CRATE_NAME_BYTES && !n.contains('\0') && !n.contains('\n') && !n.contains('\r'),
    }
}

/// An optional string as plain characters.
pub open spec fn name_view(name: Option<String>) -> Option<Seq<char>> {
    match name {
        Some(n) => Some(n@),
        None => None,
    }
}

/// Whether `after` is `before` with one compiler invocation of `outcome`
/// accounted: its outcome's count and time grow, saturating, and unless it
/// was a verification rebuild its time is charged to its non-empty crate
/// name; nothing else changes.
pub open spec fn compiler_recorded(before: AgentStats, after: AgentStats, outcome: Seq<char>, name: Option<Seq<char>>, duration_ns: u64) -> bool {
    &&& after.compiler_counts() == before.compiler_counts().insert(outcome, CompilerStats {
        invocations: sat(compiler_in(before.compiler_counts(), outcome).invocations, 1),
        duration_ns: sat(compiler_in(before.compiler_counts(), outcome).duration_ns, duration_ns),
    })
    &&& after.slow_counts() == match name {
        Some(n) => if outcome != "verification"@ && n.len() > 0 {
            before.slow_counts().insert(n, sat(count_in(before.slow_counts(), n), duration_ns))
        } else {
            before.slow_counts()
        },
        None => before.slow_counts(),
    }
    &&& after == (AgentStats { compiler: after.compiler, slow_compilations: after.slow_compilations, ..before })
}

/// The refusal text of a compiler invocation report.
pub open spec fn report_refusal(outcome: Seq<char>) -> Seq<char> {
    if !known_outcome(outcome) { "invalid compiler invocation outcome"@ } else { "invalid compiler crate name"@ }
}

/// Answer `request` where the session statistics settle it, updating them;
/// `None` where the caller must perform it. A handshake after the first
/// request is refused.
pub fn respond(stats: &mut AgentStats, request: &AgentRequest) -> (r: Option<AgentResponse>)
    requires
        old(stats).wf(),
    ensures
        final(stats).wf(),
        match request {
            AgentRequest::RecordBypass { kind } => {
                &&& r == Some(AgentResponse::BypassRecorded)
                &&& final(stats).bypass_counts() == old(stats).bypass_counts().insert(kind@, wrap(count_in(old(stats).bypass_counts(), kind@), 1))
                &&& *final(stats) == (AgentStats { bypasses: final(stats).bypasses, ..*old(stats) })
            },
            AgentRequest::RecordUnconsulted => {
                &&& r == Some(AgentResponse::UnconsultedRecorded)
                &&& *final(stats) == (AgentStats { unconsulted: wrap(old(stats).unconsulted, 1), ..*old(stats) })
            },
            AgentRequest::RecordCompilerInvocation { outcome, crate_name, duration_ns } => {
                if known_outcome(outcome@) && crate_name_text_ok(name_view(*crate_name)) {
                    &&& r == Some(AgentResponse::CompilerInvocationRecorded)
                    &&& compiler_recorded(*old(stats), *final(stats), outcome@, name_view(*crate_name), *duration_ns)
                } else {
                    &&& r matches Some(AgentResponse::Error { message }) && message@ == report_refusal(outcome@)
                    &&& *final(stats) == *old(stats)
                }
            },
            AgentRequest::RecordActionVerification { matched, restore } => {
                &&& r == Some(AgentResponse::ActionVerificationRecorded)
                &&& *final(stats) == (AgentStats {
                    materialization_duration_ns: sat(old(stats).materialization_duration_ns, restore.duration_ns),
                    verifications: wrap(old(stats).verifications, 1),
                    divergences: if *matched { old(stats).divergences } else { wrap(old(stats).divergences, 1) },
                    ..*old(stats)
                })
            },
            AgentRequest::Hello { .. } => {
                &&& r matches Some(AgentResponse::Error { message }) && message@ == "hello is only valid as the first request"@
                &&& *final(stats) == *old(stats)
            },
            _ => r is None && *final(stats) == *old(stats),
        },
{
    match request {
        AgentRequest::RecordBypass { kind } => {
            stats.record_bypass(kind.clone());
            Some(AgentResponse::BypassRecorded)
        },
        AgentRequest::RecordUnconsulted => {
            stats.record_unconsulted();
            Some(AgentResponse::UnconsultedRecorded)
        },
        AgentRequest::RecordCompilerInvocation { outcome, crate_name, duration_ns } => {
            let name: Option<&str> = match crate_name {
                Some(n) => Some(n.as_str()),
                None => None,
            };
            match stats.record_compiler_invocation(outcome.as_str(), name, *duration_ns) {
                Ok(()) => Some(AgentResponse::CompilerInvocationRecorded),
                Err(e) => {
                    let message = e.message();
                    proof {
                        reveal_strlit("invalid compiler invocation outcome");
                        reveal_strlit("invalid compiler crate name");
                    }
                    Some(AgentResponse::Error { message })
                },
            }
        },
        AgentRequest::RecordActionVerification { matched, restore } => {
            stats.materialization_duration_ns = stats.materialization_duration_ns.saturating_add(restore.duration_ns);
            stats.verifications = stats.verifications.wrapping_add(1);
            if !*matched {
                stats.divergences = stats.divergences.wrapping_add(1);
            }
            Some(AgentResponse::ActionVerificationRecorded)
        },
        AgentRequest::Hello { .. } => {
            Some(AgentResponse::Error { message: string_of(&lit("hello is only valid as the first request")) })
        },
        _ => None,
    }
}

} // verus!
