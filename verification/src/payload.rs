//! Building the activity payload that one update iteration sends.
//!
//! The payload copies the two text lines verbatim and turns the sentinel
//! encodings of the configuration into explicit optional values: a disabled
//! party pair or image pair is left out, and the two image pairs are decided
//! independently of one another.

use vstd::prelude::*;

use crate::config::{image_disabled, image_pair_disabled, party_disabled, PresenceConfig};

verus! {

/// The structured activity description sent over IPC. `None` in a field
/// means the field is omitted from the broadcast.
#[derive(Debug)]
pub struct ActivityPayload {
    /// First activity line, always present.
    pub details: String,
    /// Second activity line, always present.
    pub state: String,
    /// Party size (current, max), or `None` when the configuration used a
    /// "no party" sentinel.
    pub party: Option<(u32, u32)>,
    /// Large image (asset key, hover text), or `None` when disabled.
    pub image_large: Option<(String, String)>,
    /// Small image (asset key, hover text), or `None` when disabled.
    pub image_small: Option<(String, String)>,
}

/// The payload a configuration gives rise to: the texts verbatim, the
/// party pair exactly as given unless it is a "no party" sentinel, and each
/// image pair exactly as given unless it is a "no such asset" sentinel, the
/// two images independently of one another.
pub open spec fn payload_matches(c: PresenceConfig, r: ActivityPayload) -> bool {
    &&& r.details@ == c.details@
    &&& r.state@ == c.state@
    &&& party_disabled(c.party) ==> r.party is None
    &&& !party_disabled(c.party) ==> r.party == Some(c.party)
    &&& image_disabled(c.image_large.0@, c.image_large.1@) ==> r.image_large is None
    &&& !image_disabled(c.image_large.0@, c.image_large.1@) ==> (r.image_large matches Some(img)
        && img.0@ == c.image_large.0@ && img.1@ == c.image_large.1@)
    &&& image_disabled(c.image_small.0@, c.image_small.1@) ==> r.image_small is None
    &&& !image_disabled(c.image_small.0@, c.image_small.1@) ==> (r.image_small matches Some(img)
        && img.0@ == c.image_small.0@ && img.1@ == c.image_small.1@)
}

/// Builds the payload one update iteration broadcasts, exactly as
/// `payload_matches` describes.
pub fn build_payload(c: &PresenceConfig) -> (r: ActivityPayload)
    ensures
        payload_matches(*c, r),
{
    let party = if (c.party.0 == 0 && c.party.1 == 0) || (c.party.0 == 1 && c.party.1 == 1) {
        None
    } else {
        Some(c.party)
    };
    let image_large = if image_pair_disabled(&c.image_large.0, &c.image_large.1) {
        None
    } else {
        Some((c.image_large.0.clone(), c.image_large.1.clone()))
    };
    let image_small = if image_pair_disabled(&c.image_small.0, &c.image_small.1) {
        None
    } else {
        Some((c.image_small.0.clone(), c.image_small.1.clone()))
    };
    ActivityPayload {
        details: c.details.clone(),
        state: c.state.clone(),
        party,
        image_large,
        image_small,
    }
}

} // verus!
