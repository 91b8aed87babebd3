//! The configuration record a worker is given: an application identifier,
//! two lines of free text, a party size pair and two image asset pairs.
//!
//! Sentinel values switch optional parts off: the party pair `(0, 0)` or
//! `(1, 1)` means "no party information", and an image pair of two empty
//! strings or the literal pair `("none", "none")` means "no such asset".

use vstd::prelude::*;
use vstd::string::StringExecFns;

verus! {

/// An immutable snapshot of the user's presence settings. A worker receives
/// one at start and keeps it for its whole life.
#[derive(Debug)]
pub struct PresenceConfig {
    /// Opaque client identifier handed to the IPC endpoint.
    pub app_id: String,
    /// Free text shown as the first activity line.
    pub details: String,
    /// Free text shown as the second activity line.
    pub state: String,
    /// Party size as (current, max); `(0, 0)` and `(1, 1)` mean "no party".
    pub party: (u32, u32),
    /// Large image as (asset key, hover text); two empty strings or
    /// `("none", "none")` mean "no large image".
    pub image_large: (String, String),
    /// Small image under the same convention, independently of the large one.
    pub image_small: (String, String),
}

/// The mathematical content of a configuration: the character sequences of
/// its strings and the plain pairs.
pub struct ConfigView {
    pub app_id: Seq<char>,
    pub details: Seq<char>,
    pub state: Seq<char>,
    pub party: (u32, u32),
    pub image_large: (Seq<char>, Seq<char>),
    pub image_small: (Seq<char>, Seq<char>),
}

impl View for PresenceConfig {
    type V = ConfigView;

    open spec fn view(&self) -> ConfigView {
        ConfigView {
            app_id: self.app_id@,
            details: self.details@,
            state: self.state@,
            party: self.party,
            image_large: (self.image_large.0@, self.image_large.1@),
            image_small: (self.image_small.0@, self.image_small.1@),
        }
    }
}

/// The party pair carries no information: it is `(0, 0)` or `(1, 1)`.
pub open spec fn party_disabled(party: (u32, u32)) -> bool {
    party == (0u32, 0u32) || party == (1u32, 1u32)
}

/// The image pair carries no asset: both parts empty, or both the literal
/// `"none"`.
pub open spec fn image_disabled(key: Seq<char>, text: Seq<char>) -> bool {
    (key.len() == 0 && text.len() == 0) || (key == "none"@ && text == "none"@)
}

/// A meaningful party pair keeps both values in `[1, 10]` with
/// current at most max; `(0, 0)` is the fully switched-off form.
pub open spec fn party_well_formed(party: (u32, u32)) -> bool {
    (party.0 == 0 && party.1 == 0) || (1 <= party.0 && party.0 <= party.1 && party.1 <= 10)
}

impl PresenceConfig {
    /// The configuration respects the party range invariant.
    pub open spec fn well_formed(&self) -> bool {
        party_well_formed(self.party)
    }

    /// Reports whether the party range invariant holds of this value.
    pub fn check_well_formed(&self) -> (r: bool)
        ensures
            r == self.well_formed(),
    {
        let (cur, max) = self.party;
        (cur == 0 && max == 0) || (1 <= cur && cur <= max && max <= 10)
    }
}

/// Reports whether the pair `(key, text)` is one of the two "no such asset"
/// sentinels.
pub fn image_pair_disabled(key: &String, text: &String) -> (r: bool)
    ensures
        r == image_disabled(key@, text@),
{
    let none_lit: String = String::from_str("none");
    (key.as_str().is_empty() && text.as_str().is_empty())
        || (*key == none_lit && *text == none_lit)
}

impl Clone for PresenceConfig {
    /// A clone is equal to the original in every field.
    fn clone(&self) -> (r: Self)
        ensures
            r == *self,
    {
        PresenceConfig {
            app_id: self.app_id.clone(),
            details: self.details.clone(),
            state: self.state.clone(),
            party: self.party,
            image_large: (self.image_large.0.clone(), self.image_large.1.clone()),
            image_small: (self.image_small.0.clone(), self.image_small.1.clone()),
        }
    }
}

impl PartialEq for PresenceConfig {
    fn eq(&self, other: &Self) -> (r: bool) {
        self.app_id == other.app_id && self.details == other.details && self.state == other.state
            && self.party.0 == other.party.0 && self.party.1 == other.party.1
            && self.image_large.0 == other.image_large.0
            && self.image_large.1 == other.image_large.1
            && self.image_small.0 == other.image_small.0
            && self.image_small.1 == other.image_small.1
    }
}

impl vstd::std_specs::cmp::PartialEqSpecImpl for PresenceConfig {
    open spec fn obeys_eq_spec() -> bool {
        true
    }

    open spec fn eq_spec(&self, other: &Self) -> bool {
        self@.app_id == other@.app_id && self@.details == other@.details && self@.state
            == other@.state && self@.party == other@.party && self@.image_large
            == other@.image_large && self@.image_small == other@.image_small
    }
}

} // verus!
