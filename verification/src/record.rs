use crate::kif::parse_kif;
use crate::text::{has_prefix, to_chars};
use shogi_core::PartialPosition;
use vstd::prelude::*;

verus! {

/// The format of a game record.
#[derive(Clone, Copy, Debug, PartialEq, Eq, Structural)]
pub enum RecordType {
    Kif,
    Csa,
    Psn,
}

/// The format that a text is taken for: KIF where it begins with one of the
/// two headers of that format, PSN else.
pub open spec fn spec_record_type(a: Seq<char>) -> RecordType {
    if "#KIF version="@.is_prefix_of(a) || "# --- Kifu for Windows"@.is_prefix_of(a) {
        RecordType::Kif
    } else {
        RecordType::Psn
    }
}

/// The format that a text is taken for.
pub fn check_record_type(a: &str) -> (record_type: RecordType)
    ensures
        record_type == spec_record_type(a@),
{
    let chars: Vec<char> = to_chars(a);
    let n: usize = chars.len();
    assert(chars@.subrange(0, n as int) =~= a@);
    if has_prefix(&chars, 0, n, "#KIF version=") || has_prefix(
        &chars,
        0,
        n,
        "# --- Kifu for Windows",
    ) {
        return RecordType::Kif;
    }
    RecordType::Psn
}

/// The position that a record starts from. Only KIF is read.
pub fn parse(a: &str, record_type: RecordType) -> (position: PartialPosition)
    requires
        record_type == RecordType::Kif,
    ensures
        crate::position_wrapper::configuration_of(position) == crate::kif::kif_configuration(a@),
{
    parse_kif(a)
}

} // verus!
