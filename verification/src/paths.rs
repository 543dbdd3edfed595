//! Where segment files live.

use crate::path_laws::is_live_path_of;
use crate::path_laws::law_id_is_read_back;
use vstd::prelude::*;

verus! {

/// The lower-case hexadecimal digit of a value below sixteen.
pub open spec fn hex_char(nibble: u8) -> char
    recommends
        nibble < 16,
{
    "0123456789abcdef"@[nibble as int]
}

/// Two lower-case hexadecimal digits per byte, high digit first.
pub open spec fn hex_text(bytes: Seq<u8>) -> Seq<char> {
    Seq::new(
        2 * bytes.len(),
        |i: int| if i % 2 == 0 { hex_char(bytes[i / 2] / 16) } else { hex_char(bytes[i / 2] % 16) },
    )
}

/// `seg/` followed by the segment id in hexadecimal.
pub open spec fn live_path_text(segment_id: [u8; 16]) -> Seq<char> {
    "seg/"@ + hex_text(segment_id@)
}

/// Different segments live at different paths.
pub proof fn law_live_paths_are_distinct(a: [u8; 16], b: [u8; 16])
    requires
        live_path_text(a) == live_path_text(b),
    ensures
        a == b,
{
    reveal_strlit("seg/");
    let text = live_path_text(a);
    assert forall|i: int| 0 <= i < 16 implies #[trigger] a@[i] == b@[i] by {
        assert(text[4 + 2 * i] == hex_char(a@[i] / 16));
        assert(text[5 + 2 * i] == hex_char(a@[i] % 16));
        assert(live_path_text(b)[4 + 2 * i] == hex_char(b@[i] / 16));
        assert(live_path_text(b)[5 + 2 * i] == hex_char(b@[i] % 16));
        lemma_hex_chars_are_distinct(a@[i] / 16, b@[i] / 16);
        lemma_hex_chars_are_distinct(a@[i] % 16, b@[i] % 16);
    }
    assert(a@ =~= b@);
    assert(a =~= b);
}

proof fn lemma_hex_chars_are_distinct(m: u8, n: u8)
    requires
        m < 16,
        n < 16,
        hex_char(m) == hex_char(n),
    ensures
        m == n,
{
    reveal_strlit("0123456789abcdef");
}

/// The directory in which replacement segments are written before they are
/// published.
pub fn staging_dir() -> (path: &'static str)
    ensures
        path@ == "seg/.staging"@,
{
    "seg/.staging"
}

fn hex_digit(nibble: u8) -> (digit: &'static str)
    requires
        nibble < 16,
    ensures
        digit@ == seq![hex_char(nibble)],
{
    let digits: &'static str = "0123456789abcdef";
    proof {
        reveal_strlit("0123456789abcdef");
    }
    let at: usize = nibble as usize;
    let digit: &'static str = digits.substring_ascii(at, at + 1);
    assert(digit@ =~= seq![hex_char(nibble)]);
    digit
}

/// The path of a live segment file: `seg/` and the id's sixteen bytes in
/// lower-case hexadecimal.
pub fn live_path(segment_id: &[u8; 16]) -> (path: String)
    ensures
        path@ == live_path_text(*segment_id),
        is_live_path_of(path@, *segment_id),
{
    let mut path: String = "seg/".to_owned();
    let mut i: usize = 0;
    while i < 16
        invariant
            i <= 16,
            path@ == "seg/"@ + hex_text(segment_id@.take(i as int)),
        decreases 16 - i,
    {
        let byte: u8 = segment_id[i];
        let ghost before = path@;
        path.append(hex_digit(byte / 16));
        path.append(hex_digit(byte % 16));
        i = i + 1;
        assert(path@ =~= "seg/"@ + hex_text(segment_id@.take(i as int))) by {
            assert(before == "seg/"@ + hex_text(segment_id@.take(i - 1)));
            assert(hex_text(segment_id@.take(i as int)) =~= hex_text(segment_id@.take(i - 1))
                + seq![hex_char(byte / 16), hex_char(byte % 16)]);
        }
    }
    assert(segment_id@.take(16) =~= segment_id@);
    proof {
        law_id_is_read_back(*segment_id);
    }
    path
}

} // verus!
