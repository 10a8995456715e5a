//! SPF records: picking one out of what a TXT lookup returned, and reading
//! its mechanisms.

use decon_spf::mechanism::Kind;
use decon_spf::{Spf, SpfError};
use std::str::FromStr;
use vstd::prelude::*;

use crate::error::{Failure, ResolverError};
use crate::mechanism::{mechanism_views, Mechanism, MechanismKind, MechanismView};

verus! {

/// An SPF record: its text, and its mechanisms in the order of the text.
#[derive(Clone, Debug, PartialEq, Eq)]
pub struct SpfRecord {
    pub raw_text: String,
    pub mechanisms: Vec<Mechanism>,
}

/// What the SPF parser makes of a record's text: its mechanisms in the order
/// of the text, or `None` where the parser rejects the text.
pub uninterp spec fn spf_mechanisms(text: Seq<char>) -> Option<Seq<MechanismView>>;

/// The error of the SPF parser, `decon_spf::SpfError`. Nothing is read from
/// it.
#[verifier::external_type_specification]
#[verifier::external_body]
pub struct ExSpfError(SpfError);

/// Parses a record with `decon_spf`: `<Spf<String> as FromStr>::from_str`,
/// then `Spf::iter`, and `Mechanism::kind` and `Mechanism::raw` on each item.
///
/// Trusted: whether the parser accepts the text, and the mechanisms that it
/// returns, are a function of the text alone, named [`spf_mechanisms`].
/// Nothing is claimed of which texts it accepts or of what the mechanisms
/// are.
#[verifier::external_body]
fn parse_record(text: &str) -> (parsed: Result<Vec<Mechanism>, SpfError>)
    ensures
        match parsed {
            Ok(list) => spf_mechanisms(text@) == Some(mechanism_views(list@)),
            Err(_) => spf_mechanisms(text@) is None,
        },
{
    let spf = Spf::<String>::from_str(text)?;
    Ok(spf.iter().map(|m| Mechanism { kind: match m.kind() {
        Kind::Include => MechanismKind::Include,
        Kind::Redirect => MechanismKind::Redirect,
        Kind::All => MechanismKind::All,
        Kind::A => MechanismKind::Other,
        Kind::MX => MechanismKind::Other,
        Kind::IpV4 => MechanismKind::Other,
        Kind::IpV6 => MechanismKind::Other,
        Kind::Ptr => MechanismKind::Other,
        Kind::Exists => MechanismKind::Other,
    }, raw: m.raw() }).collect())
}

impl SpfRecord {
    /// Whether the mechanisms are those that the parser reads from the text.
    pub open spec fn is_parsed(self) -> bool {
        spf_mechanisms(self.raw_text@) == Some(mechanism_views(self.mechanisms@))
    }

    /// Reads a record's text. A text that the parser rejects is returned in
    /// the error.
    pub fn parse(raw_text: String) -> (outcome: Result<SpfRecord, ResolverError>)
        ensures
            match outcome {
                Ok(record) => record.raw_text@ == raw_text@ && record.is_parsed(),
                Err(error) => {
                    &&& spf_mechanisms(raw_text@) is None
                    &&& error@ == Failure::RecordParse { raw_text: raw_text@ }
                },
            },
    {
        match parse_record(raw_text.as_str()) {
            Ok(mechanisms) => Ok(SpfRecord { raw_text, mechanisms }),
            Err(_) => Err(ResolverError::RecordParseError { raw_text }),
        }
    }
}

/// Whether a text starts as an SPF record does: with `v=spf1`.
pub open spec fn is_spf_text(text: Seq<char>) -> bool {
    "v=spf1"@.is_prefix_of(text)
}

/// Tells whether a text starts with `v=spf1`.
pub fn is_spf_record(text: &str) -> (is_spf: bool)
    ensures
        is_spf == is_spf_text(text@),
{
    let prefix = "v=spf1";
    proof {
        reveal_strlit("v=spf1");
    }
    if text.unicode_len() < 6 {
        return false;
    }
    let mut i: usize = 0;
    while i < 6
        invariant
            i <= 6,
            6 <= text@.len(),
            prefix@ == "v=spf1"@,
            prefix@.len() == 6,
            forall|j: int| 0 <= j < i ==> text@[j] == prefix@[j],
        decreases 6 - i,
    {
        if text.get_char(i) != prefix.get_char(i) {
            assert(text@.subrange(0, 6)[i as int] != prefix@[i as int]);
            return false;
        }
        i += 1;
    }
    assert(prefix@ =~= text@.subrange(0, 6));
    true
}

/// Picks the SPF record among the texts of a domain's TXT records: the first
/// that starts with `v=spf1`, and none where no text does.
pub fn select_spf_record(texts: &Vec<String>) -> (record: Option<String>)
    ensures
        match record {
            Some(text) => exists|i: int|
                {
                    &&& 0 <= i < texts.len()
                    &&& #[trigger] texts[i]@ == text@
                    &&& is_spf_text(texts[i]@)
                    &&& forall|j: int| 0 <= j < i ==> !is_spf_text(#[trigger] texts[j]@)
                },
            None => forall|i: int| 0 <= i < texts.len() ==> !is_spf_text(#[trigger] texts[i]@),
        },
{
    let mut i: usize = 0;
    while i < texts.len()
        invariant
            i <= texts.len(),
            forall|j: int| 0 <= j < i ==> !is_spf_text(#[trigger] texts[j]@),
        decreases texts.len() - i,
    {
        if is_spf_record(texts[i].as_str()) {
            let text = texts[i].clone();
            assert(texts[i as int]@ == text@);
            return Some(text);
        }
        i += 1;
    }
    None
}

} // verus!
