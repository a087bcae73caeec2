//! Character widths, byte offsets of (line, UTF-16 column) positions, and path joining.
use vstd::prelude::*;

verus! {

/// Number of bytes that `c` takes in UTF-8.
pub open spec fn utf8_width(c: char) -> nat {
    if (c as u32) < 0x80 {
        1
    } else if (c as u32) < 0x800 {
        2
    } else if (c as u32) < 0x10000 {
        3
    } else {
        4
    }
}

/// Number of UTF-16 code units that `c` takes.
pub open spec fn utf16_width(c: char) -> nat {
    if (c as u32) < 0x10000 {
        1
    } else {
        2
    }
}

/// Length in UTF-8 bytes of a character sequence.
pub open spec fn byte_len(s: Seq<char>) -> nat
    decreases s.len(),
{
    if s.len() == 0 {
        0
    } else {
        byte_len(s.drop_last()) + utf8_width(s.last())
    }
}

/// Number of bytes that `c` takes in UTF-8.
pub fn char_utf8_width(c: char) -> (r: usize)
    ensures
        r == utf8_width(c),
{
    let v = c as u32;
    if v < 0x80 {
        1
    } else if v < 0x800 {
        2
    } else if v < 0x10000 {
        3
    } else {
        4
    }
}

/// UTF-8 length of `text`, or `None` where it does not fit in `usize`.
pub fn text_byte_len(text: &Vec<char>) -> (r: Option<usize>)
    ensures
        r matches Some(b) ==> b == byte_len(text@),
        r is None ==> byte_len(text@) > usize::MAX,
{
    let ghost t = text@;
    let mut b: usize = 0;
    let mut i: usize = 0;
    while i < text.len()
        invariant
            t == text@,
            i <= text@.len(),
            b == byte_len(t.take(i as int)),
        decreases text@.len() - i,
    {
        assert(t.take(i + 1).drop_last() =~= t.take(i as int));
        let w = char_utf8_width(text[i]);
        if b > usize::MAX - w {
            proof {
                lemma_byte_len_prefix(t, i + 1);
            }
            return None;
        }
        b = b + w;
        i = i + 1;
    }
    assert(t.take(i as int) =~= t);
    Some(b)
}

/// Byte length of a prefix never exceeds that of the whole sequence.
pub proof fn lemma_byte_len_prefix(s: Seq<char>, k: int)
    requires
        0 <= k <= s.len(),
    ensures
        byte_len(s.take(k)) <= byte_len(s),
    decreases s.len(),
{
    if k < s.len() {
        assert(s.take(k) =~= s.drop_last().take(k));
        lemma_byte_len_prefix(s.drop_last(), k);
    } else {
        assert(s.take(k) =~= s);
    }
}

/// Index of the first `'\n'` at or after `from`, if any.
pub open spec fn next_newline(t: Seq<char>, from: nat) -> Option<nat>
    decreases t.len() - from,
{
    if from >= t.len() {
        None
    } else if t[from as int] == '\n' {
        Some(from)
    } else {
        next_newline(t, from + 1)
    }
}

/// Character index at which line `line` (0-based) begins, if the text has that many lines.
pub open spec fn line_start(t: Seq<char>, line: nat) -> Option<nat>
    decreases line,
{
    if line == 0 {
        Some(0)
    } else {
        match line_start(t, (line - 1) as nat) {
            None => None,
            Some(s) => match next_newline(t, s) {
                None => None,
                Some(k) => Some(k + 1),
            },
        }
    }
}

/// Character index reached by moving `col` UTF-16 code units right from index `from`
/// without leaving the line; `None` when the line ends first or the move stops
/// inside a character.
pub open spec fn column_index(t: Seq<char>, from: nat, col: nat) -> Option<nat>
    decreases col,
{
    if col == 0 {
        Some(from)
    } else if from >= t.len() || t[from as int] == '\n' || utf16_width(t[from as int]) > col {
        None
    } else {
        column_index(t, from + 1, (col - utf16_width(t[from as int])) as nat)
    }
}

/// Byte offset of the 0-based position (`line`, `col`), the column counted in UTF-16
/// code units; `None` when the position is not on a character boundary of the text.
pub open spec fn position_offset(t: Seq<char>, line: nat, col: nat) -> Option<nat> {
    match line_start(t, line) {
        None => None,
        Some(s) => match column_index(t, s, col) {
            None => None,
            Some(j) => Some(byte_len(t.take(j as int))),
        },
    }
}

/// Byte offset that rust-analyzer's line index gives for the 0-based `line` and UTF-16
/// column `col` of `text`; it depends on its arguments alone.
pub uninterp spec fn line_index_offset(text: Seq<char>, line: nat, col: nat) -> Option<nat>;

/// Relies on `line_index::LineIndex` (`new`, `to_utf8` with `WideEncoding::Utf16`, then
/// `offset`): `None` for a line the text does not have, else the line's start plus the
/// column turned into UTF-8 bytes, which on a character boundary inside the line is the
/// byte length of the text before it. `new` asserts that the text is shorter than
/// `u32::MAX` bytes; the sum in `offset` must not overflow `u32`.
#[verifier::external_body]
fn line_col_offset(text: &Vec<char>, line: u32, col: u32) -> (r: Option<usize>)
    requires
        byte_len(text@) < u32::MAX,
        col + 2 * byte_len(text@) <= u32::MAX,
    ensures
        r matches Some(o) ==> line_index_offset(text@, line as nat, col as nat) == Some(o as nat),
        r is None ==> line_index_offset(text@, line as nat, col as nat) is None,
        line_start(text@, line as nat) is None ==> r is None,
        position_offset(text@, line as nat, col as nat) matches Some(o) ==> r == Some(o as usize),
{
    let s: String = text.iter().collect();
    let index = ra_ap_ide_db::line_index::LineIndex::new(&s);
    let wide = ra_ap_ide_db::line_index::WideLineCol { line, col };
    index
        .to_utf8(ra_ap_ide_db::line_index::WideEncoding::Utf16, wide)
        .and_then(|lc| index.offset(lc))
        .map(|o| u32::from(o) as usize)
}

/// Byte offset of the 0-based `line` and UTF-16 column `col` of `text`, as the line index
/// computes it, or `None` where the line does not exist or the offset lies past the
/// end of the text.
pub fn offset_in_text(text: &Vec<char>, line: u32, col: u32) -> (r: Option<usize>)
    requires
        3 * byte_len(text@) < u32::MAX,
    ensures
        r == offset_spec(text@, line as nat, col as nat),
{
    let blen: u32 = match text_byte_len(text) {
        Some(b) => b as u32,
        None => {
            return None;
        },
    };
    if col > u32::MAX - 2 * blen {
        return None;
    }
    match line_col_offset(text, line, col) {
        None => None,
        Some(o) => if o > blen as usize {
            None
        } else {
            Some(o)
        },
    }
}

/// The offset `offset_in_text` returns: a column too large for any line of the text
/// gives `None`, as does a line the text lacks or an offset past the text's end.
pub open spec fn offset_spec(text: Seq<char>, line: nat, col: nat) -> Option<usize> {
    if col + 2 * byte_len(text) > u32::MAX {
        None
    } else {
        match line_index_offset(text, line, col) {
            None => None,
            Some(o) => if o > byte_len(text) {
                None
            } else {
                Some(o as usize)
            },
        }
    }
}

/// The path that `file` names relative to the directory `root`: an absolute `file`
/// stands alone, otherwise the two are joined by one `/`.
pub open spec fn joined(root: Seq<char>, file: Seq<char>) -> Seq<char> {
    if file.len() > 0 && file[0] == '/' {
        file
    } else if root.len() == 0 {
        file
    } else if root.last() == '/' {
        root + file
    } else {
        root + seq!['/'] + file
    }
}

/// `file` taken relative to the directory `root`, as `joined` describes it.
pub fn join_path(root: &str, file: &str) -> (r: String)
    ensures
        r@ == joined(root@, file@),
{
    let flen = file.unicode_len();
    if flen > 0 && file.get_char(0) == '/' {
        return file.to_owned();
    }
    let rlen = root.unicode_len();
    if rlen == 0 {
        return file.to_owned();
    }
    let mut r = root.to_owned();
    if root.get_char(rlen - 1) != '/' {
        proof {
            reveal_strlit("/");
        }
        r.append("/");
    }
    r.append(file);
    r
}

} // verus!
