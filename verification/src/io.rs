//! Reading an array layout from the bytes of a layout file.
//!
//! A layout file has a header line and then one line for each entry: row,
//! column and identifier, separated by tabs. Empty lines and lines that begin
//! with `Row` or `#` are passed over, and so are lines that have less than
//! three fields or whose row or column is no number.
use vstd::prelude::*;
use crate::types::LayoutEntry;

pub use crate::types::detect_image_type;

verus! {

/// What `String::from_utf8_lossy` makes of bytes.
pub uninterp spec fn lossy_text(bytes: Seq<u8>) -> Seq<char>;

/// `String::from_utf8_lossy` on the bytes `from .. to` of `content`: the text
/// that the bytes encode, invalid sequences replaced.
#[verifier::external_body]
fn text_of(content: &[u8], from: usize, to: usize) -> (text: String)
    requires
        from <= to <= content@.len(),
    ensures
        text@ == lossy_text(content@.subrange(from as int, to as int)),
{
    String::from_utf8_lossy(&content[from..to]).into_owned()
}

/// Whether a byte is white space: a blank, or one of the control characters
/// from the tabulator to the carriage return.
pub open spec fn is_space(b: u8) -> bool {
    b == 32 || (9 <= b && b <= 13)
}

/// The first place from `from` up to `to` at which the byte `b` stands; `to`
/// where it does not stand before `to`.
pub open spec fn find_byte(s: Seq<u8>, b: u8, from: int, to: int) -> int
    decreases to - from,
{
    if from >= to {
        to
    } else if s[from] == b {
        from
    } else {
        find_byte(s, b, from + 1, to)
    }
}

/// The first place from `lo` up to `hi` at which no white space stands.
pub open spec fn trim_start(s: Seq<u8>, lo: int, hi: int) -> int
    decreases hi - lo,
{
    if lo >= hi {
        hi
    } else if is_space(s[lo]) {
        trim_start(s, lo + 1, hi)
    } else {
        lo
    }
}

/// The place after the last byte of `lo .. hi` that is no white space.
pub open spec fn trim_stop(s: Seq<u8>, lo: int, hi: int) -> int
    decreases hi - lo,
{
    if hi <= lo {
        lo
    } else if is_space(s[hi - 1]) {
        trim_stop(s, lo, hi - 1)
    } else {
        hi
    }
}

/// The bytes `lo .. hi` without the white space at their beginning and end,
/// as a range.
pub open spec fn trimmed(s: Seq<u8>, lo: int, hi: int) -> (int, int) {
    let a = trim_start(s, lo, hi);
    (a, trim_stop(s, a, hi))
}

pub open spec fn is_digit(b: u8) -> bool {
    48 <= b && b <= 57
}

/// Whether the bytes `lo .. hi` are digits.
pub open spec fn all_digits(s: Seq<u8>, lo: int, hi: int) -> bool {
    forall|i: int| lo <= i < hi ==> is_digit(#[trigger] s[i])
}

/// The number that the digits `lo .. hi` write.
pub open spec fn digits_value(s: Seq<u8>, lo: int, hi: int) -> int
    decreases hi - lo,
{
    if hi <= lo {
        0
    } else {
        digits_value(s, lo, hi - 1) * 10 + (s[hi - 1] - 48)
    }
}

/// The index that the bytes `lo .. hi` write: digits, with or without a sign
/// before them, that write a number of 32 bits.
pub open spec fn index_of(s: Seq<u8>, lo: int, hi: int) -> Option<i32> {
    let signed = lo < hi && (s[lo] == 43 || s[lo] == 45);
    let start = if signed {
        lo + 1
    } else {
        lo
    };
    let magnitude = digits_value(s, start, hi);
    let value = if lo < hi && s[lo] == 45 {
        -magnitude
    } else {
        magnitude
    };
    if start < hi && all_digits(s, start, hi) && -0x8000_0000 <= value <= 0x7fff_ffff {
        Some(value as i32)
    } else {
        None
    }
}

/// Whether the bytes from `lo` up to `hi` begin with `Row`.
pub open spec fn begins_with_row(s: Seq<u8>, lo: int, hi: int) -> bool {
    hi - lo >= 3 && s[lo] == 82 && s[lo + 1] == 111 && s[lo + 2] == 119
}

/// What a line of a layout file holds, the line being the bytes `lo .. hi`
/// without white space at either end.
pub struct LineFields {
    pub row: i32,
    pub col: i32,
    /// The range of the identifier.
    pub id: (int, int),
}

/// The fields of the entry that a line holds, if it holds one.
pub open spec fn fields_of(s: Seq<u8>, lo: int, hi: int) -> Option<LineFields> {
    let first_tab = find_byte(s, 9, lo, hi);
    let second_tab = find_byte(s, 9, first_tab + 1, hi);
    let third_tab = find_byte(s, 9, second_tab + 1, hi);
    let row_range = trimmed(s, lo, first_tab);
    let col_range = trimmed(s, first_tab + 1, second_tab);
    let row = index_of(s, row_range.0, row_range.1);
    let col = index_of(s, col_range.0, col_range.1);
    if lo >= hi || s[lo] == 35 || begins_with_row(s, lo, hi) || first_tab >= hi || second_tab
        >= hi || row.is_none() || col.is_none() {
        None
    } else {
        Some(
            LineFields {
                row: row.unwrap(),
                col: col.unwrap(),
                id: trimmed(s, second_tab + 1, third_tab),
            },
        )
    }
}

/// Whether an identifier marks a reference spot: it is `#REF` or `NA`.
pub open spec fn marks_reference(id: Seq<u8>) -> bool {
    id == seq![35u8, 82u8, 69u8, 70u8] || id == seq![78u8, 65u8]
}

/// Whether `entry` is the layout entry of the fields.
pub open spec fn is_entry_of(entry: LayoutEntry, s: Seq<u8>, fields: LineFields) -> bool {
    &&& entry.0@ == lossy_text(s.subrange(fields.id.0, fields.id.1))
    &&& entry.1 == marks_reference(s.subrange(fields.id.0, fields.id.1))
    &&& entry.2 == fields.row
    &&& entry.3 == fields.col
}

/// The fields of the entries of the lines that begin at `start` or later.
pub open spec fn fields_from(s: Seq<u8>, start: int) -> Seq<LineFields>
    decreases s.len() - start,
{
    if start >= s.len() {
        Seq::empty()
    } else {
        let end = find_byte(s, 10, start, s.len() as int);
        let line = trimmed(s, start, end);
        let rest = if start <= end && end < s.len() {
            fields_from(s, end + 1)
        } else {
            Seq::empty()
        };
        match fields_of(s, line.0, line.1) {
            Some(f) => seq![f] + rest,
            None => rest,
        }
    }
}

/// The fields of the entries of a layout file: those of its lines after the
/// first.
pub open spec fn layout_fields(s: Seq<u8>) -> Seq<LineFields> {
    fields_from(s, find_byte(s, 10, 0, s.len() as int) + 1)
}

/// Whether `layout` is the layout that the bytes of a layout file hold.
pub open spec fn is_layout_of(layout: Seq<LayoutEntry>, s: Seq<u8>) -> bool {
    &&& layout.len() == layout_fields(s).len()
    &&& forall|i: int| 0 <= i < layout.len() ==> is_entry_of(#[trigger] layout[i], s, layout_fields(s)[i])
}

proof fn lemma_find_byte(s: Seq<u8>, b: u8, from: int, to: int)
    requires
        0 <= from <= to <= s.len(),
    ensures
        from <= find_byte(s, b, from, to) <= to,
        find_byte(s, b, from, to) < to ==> s[find_byte(s, b, from, to)] == b,
    decreases to - from,
{
    if from < to && s[from] != b {
        lemma_find_byte(s, b, from + 1, to);
    }
}

fn find(content: &[u8], b: u8, from: usize, to: usize) -> (at: usize)
    requires
        from <= to <= content@.len(),
    ensures
        at == find_byte(content@, b, from as int, to as int),
        from <= at <= to,
{
    let mut i: usize = from;
    while i < to && content[i] != b
        invariant
            from <= i <= to <= content@.len(),
            find_byte(content@, b, from as int, to as int) == find_byte(
                content@,
                b,
                i as int,
                to as int,
            ),
        decreases to - i,
    {
        i += 1;
    }
    i
}

proof fn lemma_trim(s: Seq<u8>, lo: int, hi: int)
    requires
        0 <= lo <= hi <= s.len(),
    ensures
        lo <= trim_start(s, lo, hi) <= hi,
        lo <= trim_stop(s, lo, hi) <= hi,
    decreases hi - lo,
{
    if lo < hi {
        if is_space(s[lo]) {
            lemma_trim(s, lo + 1, hi);
        }
        if is_space(s[hi - 1]) {
            lemma_trim(s, lo, hi - 1);
        }
    }
}

fn space(b: u8) -> (yes: bool)
    ensures
        yes == is_space(b),
{
    b == 32 || (9 <= b && b <= 13)
}

fn trim(content: &[u8], lo: usize, hi: usize) -> (range: (usize, usize))
    requires
        lo <= hi <= content@.len(),
    ensures
        (range.0 as int, range.1 as int) == trimmed(content@, lo as int, hi as int),
        lo <= range.0 <= range.1 <= hi,
{
    let mut a: usize = lo;
    while a < hi && space(content[a])
        invariant
            lo <= a <= hi <= content@.len(),
            trim_start(content@, lo as int, hi as int) == trim_start(content@, a as int, hi as int),
        decreases hi - a,
    {
        a += 1;
    }
    let mut b: usize = hi;
    while b > a && space(content[b - 1])
        invariant
            a <= b <= hi <= content@.len(),
            trim_stop(content@, a as int, hi as int) == trim_stop(content@, a as int, b as int),
        decreases b - a,
    {
        b -= 1;
    }
    (a, b)
}

proof fn lemma_digits_grow(s: Seq<u8>, lo: int, k: int, hi: int)
    requires
        0 <= lo <= k <= hi <= s.len(),
        all_digits(s, lo, hi),
    ensures
        0 <= digits_value(s, lo, k) <= digits_value(s, lo, hi),
    decreases hi - k,
{
    lemma_digits_nonnegative(s, lo, k);
    if k < hi {
        lemma_digits_grow(s, lo, k, hi - 1);
        lemma_digits_nonnegative(s, lo, hi - 1);
        assert(is_digit(s[hi - 1]));
    }
}

proof fn lemma_digits_nonnegative(s: Seq<u8>, lo: int, hi: int)
    requires
        0 <= lo <= hi <= s.len(),
        all_digits(s, lo, hi),
    ensures
        0 <= digits_value(s, lo, hi),
    decreases hi - lo,
{
    if lo < hi {
        lemma_digits_nonnegative(s, lo, hi - 1);
        assert(is_digit(s[hi - 1]));
    }
}

#[verifier::loop_isolation(false)]
fn parse_index(content: &[u8], lo: usize, hi: usize) -> (index: Option<i32>)
    requires
        lo <= hi <= content@.len(),
    ensures
        index == index_of(content@, lo as int, hi as int),
{
    let signed: bool = lo < hi && (content[lo] == 43 || content[lo] == 45);
    let negative: bool = lo < hi && content[lo] == 45;
    let start: usize = if signed {
        lo + 1
    } else {
        lo
    };
    if start >= hi {
        return None;
    }
    let mut value: i64 = 0;
    let mut i: usize = start;
    while i < hi
        invariant
            start <= i <= hi <= content@.len(),
            all_digits(content@, start as int, i as int),
            value == digits_value(content@, start as int, i as int),
            0 <= value <= 0x8000_0000,
        decreases hi - i,
    {
        let b: u8 = content[i];
        if !(48 <= b && b <= 57) {
            assert(!is_digit(content@[i as int]));
            return None;
        }
        let next: i64 = value * 10 + (b - 48) as i64;
        assert(next == digits_value(content@, start as int, i + 1));
        if next > 0x8000_0000 {
            proof {
                // the digits write too large a number, whatever follows
                if all_digits(content@, start as int, hi as int) {
                    lemma_digits_grow(content@, start as int, i + 1, hi as int);
                }
            }
            return None;
        }
        value = next;
        i += 1;
    }
    if negative {
        Some((-value) as i32)
    } else if value > 0x7fff_ffff {
        None
    } else {
        Some(value as i32)
    }
}

fn is_reference_id(content: &[u8], lo: usize, hi: usize) -> (yes: bool)
    requires
        lo <= hi <= content@.len(),
    ensures
        yes == marks_reference(content@.subrange(lo as int, hi as int)),
{
    let ghost id = content@.subrange(lo as int, hi as int);
    if hi - lo == 4 {
        let yes: bool = content[lo] == 35 && content[lo + 1] == 82 && content[lo + 2] == 69
            && content[lo + 3] == 70;
        proof {
            assert(id.len() == 4);
            assert(id[0] == content@[lo as int] && id[1] == content@[lo + 1] && id[2]
                == content@[lo + 2] && id[3] == content@[lo + 3]);
            if yes {
                assert(id =~= seq![35u8, 82u8, 69u8, 70u8]);
            } else {
                let word = seq![35u8, 82u8, 69u8, 70u8];
                assert(word[0] == 35 && word[1] == 82 && word[2] == 69 && word[3] == 70);
            }
            assert(seq![78u8, 65u8].len() == 2);
        }
        yes
    } else if hi - lo == 2 {
        let yes: bool = content[lo] == 78 && content[lo + 1] == 65;
        proof {
            assert(id.len() == 2);
            assert(id[0] == content@[lo as int] && id[1] == content@[lo + 1]);
            if yes {
                assert(id =~= seq![78u8, 65u8]);
            } else {
                let word = seq![78u8, 65u8];
                assert(word[0] == 78 && word[1] == 65);
            }
            assert(seq![35u8, 82u8, 69u8, 70u8].len() == 4);
        }
        yes
    } else {
        proof {
            assert(seq![35u8, 82u8, 69u8, 70u8].len() == 4);
            assert(seq![78u8, 65u8].len() == 2);
        }
        false
    }
}

/// The entry that a line holds, the line being the bytes `lo .. hi` without
/// white space at either end.
fn parse_line(content: &[u8], lo: usize, hi: usize) -> (entry: Option<LayoutEntry>)
    requires
        lo <= hi <= content@.len(),
    ensures
        match fields_of(content@, lo as int, hi as int) {
            Some(f) => entry matches Some(e) && is_entry_of(e, content@, f),
            None => entry.is_none(),
        },
{
    if lo >= hi || content[lo] == 35 {
        return None;
    }
    if hi - lo >= 3 && content[lo] == 82 && content[lo + 1] == 111 && content[lo + 2] == 119 {
        return None;
    }
    let first_tab: usize = find(content, 9, lo, hi);
    if first_tab >= hi {
        return None;
    }
    let second_tab: usize = find(content, 9, first_tab + 1, hi);
    if second_tab >= hi {
        return None;
    }
    let third_tab: usize = find(content, 9, second_tab + 1, hi);
    let row_range = trim(content, lo, first_tab);
    let col_range = trim(content, first_tab + 1, second_tab);
    let row: i32 = match parse_index(content, row_range.0, row_range.1) {
        None => {
            return None;
        },
        Some(r) => r,
    };
    let col: i32 = match parse_index(content, col_range.0, col_range.1) {
        None => {
            return None;
        },
        Some(c) => c,
    };
    let id_range = trim(content, second_tab + 1, third_tab);
    let id = text_of(content, id_range.0, id_range.1);
    let is_ref: bool = is_reference_id(content, id_range.0, id_range.1);
    Some((id, is_ref, row, col))
}

/// The layout that the bytes of a layout file hold.
pub fn parse_layout(content: &[u8]) -> (layout: Vec<LayoutEntry>)
    ensures
        is_layout_of(layout@, content@),
{
    let mut layout: Vec<LayoutEntry> = Vec::new();
    let len: usize = content.len();
    let header_end: usize = find(content, 10, 0, len);
    if header_end >= len {
        return layout;
    }
    let mut start: usize = header_end + 1;
    let ghost mut done: Seq<LineFields> = Seq::empty();
    while start < len
        invariant
            len == content@.len(),
            start <= len,
            done + fields_from(content@, start as int) == layout_fields(content@),
            layout@.len() == done.len(),
            forall|i: int| 0 <= i < layout@.len() ==> is_entry_of(#[trigger] layout@[i], content@, done[i]),
        decreases len - start,
    {
        let end: usize = find(content, 10, start, len);
        let line = trim(content, start, end);
        let ghost rest = if end < len {
            fields_from(content@, end + 1)
        } else {
            Seq::empty()
        };
        match parse_line(content, line.0, line.1) {
            Some(entry) => {
                proof {
                    let f = fields_of(content@, line.0 as int, line.1 as int).unwrap();
                    assert(done.push(f) + rest =~= done + (seq![f] + rest));
                    done = done.push(f);
                }
                layout.push(entry);
            },
            None => {},
        }
        if end >= len {
            start = len;
        } else {
            start = end + 1;
        }
    }
    proof {
        assert(fields_from(content@, start as int) =~= Seq::empty());
        assert(done + Seq::<LineFields>::empty() =~= done);
    }
    layout
}

} // verus!
