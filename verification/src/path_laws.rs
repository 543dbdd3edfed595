//! What the path of a segment file says of the segment.

use crate::paths::hex_char;
use crate::paths::live_path_text;
use vstd::prelude::*;

verus! {

/// The number that a lower-case hexadecimal digit stands for; `None` for any
/// other character.
pub open spec fn digit_value(c: char) -> Option<int> {
    if '0' as int <= c as int <= '9' as int {
        Some(c as int - '0' as int)
    } else if 'a' as int <= c as int <= 'f' as int {
        Some(10 + c as int - 'a' as int)
    } else {
        None
    }
}

/// Whether `path` is `seg/` and then, for each byte of the id in turn, the two
/// lower-case hexadecimal digits of that byte, and nothing more.
pub open spec fn is_live_path_of(path: Seq<char>, segment_id: [u8; 16]) -> bool {
    &&& path.len() == 36
    &&& path[0] == 's'
    &&& path[1] == 'e'
    &&& path[2] == 'g'
    &&& path[3] == '/'
    &&& forall|i: int|
        0 <= i < 16 ==> {
            let high = digit_value(path[4 + 2 * i]);
            let low = digit_value(path[5 + 2 * i]);
            high is Some && low is Some && 16 * high->0 + low->0 == #[trigger] segment_id@[i]
        }
}

/// A digit reads back as the number it was made from.
pub proof fn law_digit_is_read_back(nibble: u8)
    requires
        nibble < 16,
    ensures
        digit_value(hex_char(nibble)) == Some(nibble as int),
        hex_char(nibble) as int == if nibble < 10 {
            48 + nibble
        } else {
            87 + nibble
        },
{
    reveal_strlit("0123456789abcdef");
}

/// The id of a segment is read back from the path of its file, two hexadecimal
/// digits for each byte.
pub proof fn law_id_is_read_back(segment_id: [u8; 16])
    ensures
        is_live_path_of(live_path_text(segment_id), segment_id),
{
    reveal_strlit("seg/");
    let path = live_path_text(segment_id);
    assert forall|i: int| 0 <= i < 16 implies {
        let high = digit_value(path[4 + 2 * i]);
        let low = digit_value(path[5 + 2 * i]);
        high is Some && low is Some && 16 * high->0 + low->0 == #[trigger] segment_id@[i]
    } by {
        let byte = segment_id@[i];
        law_digit_is_read_back(byte / 16);
        law_digit_is_read_back(byte % 16);
        assert(path[4 + 2 * i] == hex_char(byte / 16));
        assert(path[5 + 2 * i] == hex_char(byte % 16));
    }
}

/// A path is the path of one segment only, and a segment has one path only.
pub proof fn law_path_and_id_go_together(
    path: Seq<char>,
    other_path: Seq<char>,
    segment_id: [u8; 16],
    other_id: [u8; 16],
)
    requires
        is_live_path_of(path, segment_id),
        is_live_path_of(other_path, other_id),
    ensures
        path == other_path <==> segment_id == other_id,
{
    if path == other_path {
        assert forall|i: int| 0 <= i < 16 implies #[trigger] segment_id@[i] == other_id@[i] by {}
        assert(segment_id@ =~= other_id@);
        assert(segment_id =~= other_id);
    }
    if segment_id == other_id {
        assert forall|i: int| 0 <= i < 36 implies #[trigger] path[i] == other_path[i] by {
            if i >= 4 {
                let at = (i - 4) / 2;
                assert(segment_id@[at] == other_id@[at]);
                assert(i == 4 + 2 * at || i == 5 + 2 * at);
            }
        }
        assert(path =~= other_path);
    }
}

} // verus!
