//! The redirect-resolver decision.
//!
//! Probing a short-form URL over the network is I/O and happens outside the
//! library; what the probe reported comes back in as a plain value, a
//! [`ProbeOutcome`], or as nothing when the probe failed. The decision over
//! that value — whether the destination qualifies and what rewritten URL to
//! answer with — is `long_url_from_probe`, and is exact: a reply exists if
//! and only if the candidate is short-form, the probe succeeded, and either
//! the final address or the redirect-target header is a long-form URL. Every
//! failure yields absence, never an error: one link's failed resolution must
//! not disturb the rest of the message.

use vstd::prelude::*;

use crate::matcher::{is_long_url, is_short_url, spec_is_long, spec_is_short};
use crate::rewrite::{replace_long_url, spec_rewrite};

verus! {

/// What a successful network probe of a URL reported: the address the
/// transport ended at, and the redirect-target header when one was present
/// and readable. A failed probe is the absence of this value.
pub struct ProbeOutcome {
    pub final_url: String,
    pub location: Option<String>,
}

/// The mathematical content of a probe outcome.
pub struct ProbeData {
    pub final_url: Seq<char>,
    pub location: Option<Seq<char>>,
}

impl View for ProbeOutcome {
    type V = ProbeData;

    open spec fn view(&self) -> ProbeData {
        ProbeData { final_url: self.final_url@, location: self.location.deep_view() }
    }
}

impl DeepView for ProbeOutcome {
    type V = ProbeData;

    open spec fn deep_view(&self) -> ProbeData {
        self.view()
    }
}

/// The rewritten long-form URL that a short-form candidate resolves to, if
/// any: the probe's final address when it is long-form, else the
/// redirect-target header when that is long-form, else nothing.
pub open spec fn spec_resolution(url: Seq<char>, probe: Option<ProbeData>) -> Option<Seq<char>> {
    if !spec_is_short(url) {
        None
    } else {
        match probe {
            None => None,
            Some(p) => if spec_is_long(p.final_url) {
                Some(spec_rewrite(p.final_url))
            } else {
                match p.location {
                    Some(loc) => if spec_is_long(loc) {
                        Some(spec_rewrite(loc))
                    } else {
                        None
                    },
                    None => None,
                }
            },
        }
    }
}

/// Decides `spec_resolution`.
pub fn long_url_from_probe(url: &str, probe: Option<&ProbeOutcome>) -> (r: Option<String>)
    ensures
        r.deep_view() == spec_resolution(url@, probe.deep_view()),
{
    if !is_short_url(url) {
        return None;
    }
    match probe {
        None => None,
        Some(p) => {
            if is_long_url(p.final_url.as_str()) {
                Some(replace_long_url(p.final_url.as_str()))
            } else {
                match &p.location {
                    Some(loc) => {
                        if is_long_url(loc.as_str()) {
                            Some(replace_long_url(loc.as_str()))
                        } else {
                            None
                        }
                    },
                    None => None,
                }
            }
        },
    }
}

} // verus!
