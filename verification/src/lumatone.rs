//! The layout-file parser and the layout data model.
//!
//! A layout file is line-oriented ASCII: a line `[BoardN]` (N in 0..=4)
//! opens the section of board N, any other `[...]` line opens an unrelated
//! section, and a `name=value` line inside a board section contributes an
//! entry when its trimmed name is `Key_I`, `Chan_I` or `Col_I` with `I` a
//! canonical decimal. Every other line is ignored. A later section for the
//! same board replaces the earlier one entirely, and a later entry for the
//! same field and key replaces the earlier one. A board needs all three
//! entries for each of its 56 keys: the note (a decimal up to 127), the
//! channel (a decimal up to 15) and the color (six hex digits; an
//! eight-byte value drops its leading alpha pair, then both forms are
//! trimmed of whitespace).

use vstd::prelude::*;

verus! {

/// An RGB color triple.
#[derive(Debug, Default, Copy, Clone, PartialEq, Eq, Hash, Structural)]
pub struct Rgb {
    pub r: u8,
    pub g: u8,
    pub b: u8,
}

/// One key of a board: its MIDI note, MIDI channel and display color.
#[derive(Debug, Default, Copy, Clone, PartialEq, Eq, Hash, Structural)]
pub struct Key {
    pub midi_note: u8,
    pub midi_chan: u8,
    pub color: Rgb,
}

/// One board: exactly 56 keys in the fixed row-major traversal order.
#[derive(Debug, Clone, PartialEq, Eq, Hash)]
pub struct Board {
    pub keys: Vec<Key>,
}

/// The whole instrument: exactly 5 boards, order-significant.
#[derive(Debug, Clone, PartialEq, Eq, Hash)]
pub struct Layout {
    pub boards: Vec<Board>,
}

/// Which per-key field an entry sets.
#[derive(Debug, Copy, Clone, PartialEq, Eq, Structural)]
pub enum Field {
    /// A `Key_I` entry: the MIDI note.
    Note,
    /// A `Chan_I` entry: the MIDI channel.
    Chan,
    /// A `Col_I` entry: the color.
    Col,
}

/// Why a layout file was rejected.
#[derive(Debug, Copy, Clone, PartialEq, Eq, Structural)]
pub enum ParseError {
    /// The file has no `[BoardN]` section for this board.
    MissingSection { board: u8 },
    /// A board section lacks the entry for this field and key index.
    MissingEntry { field: Field, index: u8 },
    /// An entry's value is not a decimal number in range for its field.
    BadNumber { field: Field, index: u8 },
    /// A color value does not consist of six hex digits after the optional
    /// alpha pair.
    BadColor,
    /// A byte of a color value is not a hexadecimal digit.
    BadHexDigit { digit: u8 },
}

/// One recognized `name=value` line of a board section: the field kind, the
/// key index taken from the entry name, and the trimmed raw value bytes.
#[derive(Debug, Clone, PartialEq, Eq)]
pub struct Entry {
    pub field: Field,
    pub index: u8,
    pub value: Vec<u8>,
}

/// The mathematical model of an entry: field, key index, value bytes.
pub type EntryModel = (Field, u8, Seq<u8>);

impl View for Entry {
    type V = EntryModel;

    open spec fn view(&self) -> EntryModel {
        (self.field, self.index, self.value@)
    }
}

/// The recognized entries of one board section, in file order.
#[derive(Debug, Clone, PartialEq, Eq)]
pub struct Section {
    pub entries: Vec<Entry>,
}

impl View for Section {
    type V = Seq<EntryModel>;

    open spec fn view(&self) -> Seq<EntryModel> {
        self.entries@.map(|i: int, e: Entry| e@)
    }
}

// ---------------------------------------------------------------------------
// Byte-level helpers.
// ---------------------------------------------------------------------------

/// ASCII whitespace, trimmed around entry names and values.
pub open spec fn is_ws(b: u8) -> bool {
    b == 32 || 9 <= b && b <= 13
}

/// ASCII decimal digit.
pub open spec fn is_digit(b: u8) -> bool {
    48 <= b && b <= 57
}

/// Value of an ASCII hex digit, upper or lower case.
pub open spec fn spec_hex_digit(b: u8) -> Option<u8> {
    if 48 <= b && b <= 57 {
        Some((b - 48) as u8)
    } else if 97 <= b && b <= 102 {
        Some((b - 87) as u8)
    } else if 65 <= b && b <= 70 {
        Some((b - 55) as u8)
    } else {
        None
    }
}

/// Value of a digit string, most significant digit first.
pub open spec fn dec_val(s: Seq<u8>) -> int
    decreases s.len(),
{
    if s.len() == 0 {
        0
    } else {
        10 * dec_val(s.drop_last()) + (s.last() - 48)
    }
}

pub open spec fn all_digits(s: Seq<u8>) -> bool {
    forall|i: int| 0 <= i < s.len() ==> is_digit(#[trigger] s[i])
}

/// A value decimal: an optional leading `+`, then one or more digits
/// denoting at most `max`. Leading zeros are accepted in values.
pub open spec fn spec_value(s: Seq<u8>, max: u8) -> Option<u8> {
    let t = if s.len() > 0 && s[0] == 43 {
        s.drop_first()
    } else {
        s
    };
    if t.len() >= 1 && all_digits(t) && dec_val(t) <= max {
        Some(dec_val(t) as u8)
    } else {
        None
    }
}

proof fn lemma_dec_val_nonneg(s: Seq<u8>)
    requires
        all_digits(s),
    ensures
        dec_val(s) >= 0,
    decreases s.len(),
{
    if s.len() > 0 {
        assert(all_digits(s.drop_last()));
        lemma_dec_val_nonneg(s.drop_last());
    }
}

/// A digit string's value only grows as more digits follow.
proof fn lemma_dec_val_prefix_le(s: Seq<u8>, i: int)
    requires
        all_digits(s),
        0 <= i <= s.len(),
    ensures
        dec_val(s.take(i)) <= dec_val(s),
    decreases s.len() - i,
{
    if i == s.len() {
        assert(s.take(i) =~= s);
    } else {
        lemma_dec_val_prefix_le(s, i + 1);
        assert(s.take(i + 1).drop_last() =~= s.take(i));
        assert(s.take(i + 1).last() == s[i]);
        assert(all_digits(s.take(i)));
        lemma_dec_val_nonneg(s.take(i));
    }
}

/// A canonical decimal key index as written by the layout format: one to
/// three digits, no leading zero, at most 255.
pub open spec fn spec_index(s: Seq<u8>) -> Option<u8> {
    if 1 <= s.len() && s.len() <= 3 && all_digits(s) && (s.len() == 1 || s[0] != 48) && dec_val(s)
        <= 255 {
        Some(dec_val(s) as u8)
    } else {
        None
    }
}

/// First index of `b` in `s`, or -1.
pub open spec fn find_byte(s: Seq<u8>, b: u8) -> int
    decreases s.len(),
{
    if s.len() == 0 {
        -1
    } else if s[0] == b {
        0
    } else {
        let r = find_byte(s.drop_first(), b);
        if r < 0 {
            -1
        } else {
            r + 1
        }
    }
}

proof fn lemma_find_byte(s: Seq<u8>, b: u8, i: int)
    requires
        0 <= i <= s.len(),
        forall|j: int| 0 <= j < i ==> s[j] != b,
        i == s.len() || s[i] == b,
    ensures
        find_byte(s, b) == if i == s.len() {
            -1int
        } else {
            i
        },
    decreases i,
{
    if s.len() == 0 {
    } else if i == 0 {
    } else {
        lemma_find_byte(s.drop_first(), b, i - 1);
    }
}

/// Number of whitespace bytes at the front.
pub open spec fn leading_ws(s: Seq<u8>) -> int
    decreases s.len(),
{
    if s.len() == 0 || !is_ws(s[0]) {
        0
    } else {
        1 + leading_ws(s.drop_first())
    }
}

/// Number of whitespace bytes at the back.
pub open spec fn trailing_ws(s: Seq<u8>) -> int
    decreases s.len(),
{
    if s.len() == 0 || !is_ws(s.last()) {
        0
    } else {
        1 + trailing_ws(s.drop_last())
    }
}

/// The bytes with leading and trailing whitespace removed.
pub open spec fn spec_trim(s: Seq<u8>) -> Seq<u8> {
    if leading_ws(s) == s.len() {
        Seq::empty()
    } else {
        s.subrange(leading_ws(s), s.len() - trailing_ws(s))
    }
}

proof fn lemma_leading_ws(s: Seq<u8>, k: int)
    requires
        0 <= k <= s.len(),
        forall|j: int| 0 <= j < k ==> is_ws(#[trigger] s[j]),
        k == s.len() || !is_ws(s[k]),
    ensures
        leading_ws(s) == k,
    decreases k,
{
    if k == 0 {
    } else {
        lemma_leading_ws(s.drop_first(), k - 1);
    }
}

proof fn lemma_trailing_ws(s: Seq<u8>, k: int)
    requires
        0 <= k <= s.len(),
        forall|j: int| s.len() - k <= j < s.len() ==> is_ws(#[trigger] s[j]),
        k == s.len() || !is_ws(s[s.len() - k - 1]),
    ensures
        trailing_ws(s) == k,
    decreases k,
{
    if k == 0 {
    } else {
        lemma_trailing_ws(s.drop_last(), k - 1);
    }
}

/// The line content with one trailing carriage return removed.
pub open spec fn strip_cr(s: Seq<u8>) -> Seq<u8> {
    if s.len() > 0 && s.last() == 13 {
        s.drop_last()
    } else {
        s
    }
}

// ---------------------------------------------------------------------------
// Line classification.
// ---------------------------------------------------------------------------

/// Board index of a section header's inner name: `Board` followed by a
/// single digit 0 to 4.
pub open spec fn spec_board_header(inner: Seq<u8>) -> Option<u8> {
    if inner.len() == 6 && inner[0] == 66 && inner[1] == 111 && inner[2] == 97 && inner[3] == 114
        && inner[4] == 100 && 48 <= inner[5] && inner[5] <= 52 {
        Some((inner[5] - 48) as u8)
    } else {
        None
    }
}

/// Field and key index denoted by a trimmed entry name: `Key_I`, `Chan_I`
/// or `Col_I` with `I` a canonical decimal, or nothing.
pub open spec fn spec_entry_name(s: Seq<u8>) -> Option<(Field, u8)> {
    if s.len() > 4 && s[0] == 75 && s[1] == 101 && s[2] == 121 && s[3] == 95 {
        match spec_index(s.skip(4)) {
            Some(i) => Some((Field::Note, i)),
            None => None,
        }
    } else if s.len() > 5 && s[0] == 67 && s[1] == 104 && s[2] == 97 && s[3] == 110 && s[4] == 95 {
        match spec_index(s.skip(5)) {
            Some(i) => Some((Field::Chan, i)),
            None => None,
        }
    } else if s.len() > 4 && s[0] == 67 && s[1] == 111 && s[2] == 108 && s[3] == 95 {
        match spec_index(s.skip(4)) {
            Some(i) => Some((Field::Col, i)),
            None => None,
        }
    } else {
        None
    }
}

/// What one line of the file means.
pub enum LineClass {
    BoardHeader(u8),
    OtherHeader,
    Entry(Field, u8, Seq<u8>),
    Skip,
}

/// Classify one raw line (the bytes between newlines): a `[...]` line is a
/// header, otherwise the first `=` splits a candidate entry whose name and
/// value are trimmed, and everything else is skipped.
pub open spec fn spec_classify(seg: Seq<u8>) -> LineClass {
    let s = strip_cr(seg);
    if s.len() >= 2 && s[0] == 91 && s.last() == 93 {
        match spec_board_header(s.subrange(1, s.len() - 1)) {
            Some(b) => LineClass::BoardHeader(b),
            None => LineClass::OtherHeader,
        }
    } else {
        let e = find_byte(s, 61);
        if e < 0 {
            LineClass::Skip
        } else {
            let name = spec_trim(s.subrange(0, e));
            let value = spec_trim(s.subrange(e + 1, s.len() as int));
            match spec_entry_name(name) {
                Some((f, i)) => LineClass::Entry(f, i, value),
                None => LineClass::Skip,
            }
        }
    }
}

/// Executable counterpart of `LineClass`.
pub enum LineKind {
    BoardHeader(u8),
    OtherHeader,
    EntryLine(Entry),
    SkipLine,
}

/// The executable classification agrees with the specified one.
pub open spec fn class_matches(c: LineClass, k: LineKind) -> bool {
    match c {
        LineClass::BoardHeader(b) => k matches LineKind::BoardHeader(b2) && b2 == b,
        LineClass::OtherHeader => k is OtherHeader,
        LineClass::Entry(f, i, v) => k matches LineKind::EntryLine(e) && e.field == f && e.index
            == i && e.value@ == v,
        LineClass::Skip => k is SkipLine,
    }
}

// ---------------------------------------------------------------------------
// Folding lines into per-board sections.
// ---------------------------------------------------------------------------

/// The fold state while walking the file's lines: the board of the current
/// section if it is a board section, the entries collected for it, and the
/// stored section of each board.
pub struct FoldState {
    pub current: Option<u8>,
    pub entries: Seq<EntryModel>,
    pub sections: Seq<Option<Seq<EntryModel>>>,
}

/// Store the current section, replacing any earlier section of its board.
pub open spec fn close_state(st: FoldState) -> Seq<Option<Seq<EntryModel>>> {
    match st.current {
        Some(b) => st.sections.update(b as int, Some(st.entries)),
        None => st.sections,
    }
}

pub open spec fn init_state() -> FoldState {
    FoldState { current: None, entries: Seq::empty(), sections: Seq::new(5, |i: int| None) }
}

/// One line's effect on the fold state.
pub open spec fn step_line(st: FoldState, c: LineClass) -> FoldState {
    match c {
        LineClass::BoardHeader(b) => FoldState {
            current: Some(b),
            entries: Seq::empty(),
            sections: close_state(st),
        },
        LineClass::OtherHeader => FoldState {
            current: None,
            entries: Seq::empty(),
            sections: close_state(st),
        },
        LineClass::Entry(f, i, v) => if st.current is Some {
            FoldState { current: st.current, entries: st.entries.push((f, i, v)), sections: st.sections }
        } else {
            st
        },
        LineClass::Skip => st,
    }
}

/// The fold state after the given lines.
pub open spec fn run_segs(segs: Seq<Seq<u8>>) -> FoldState
    decreases segs.len(),
{
    if segs.len() == 0 {
        init_state()
    } else {
        step_line(run_segs(segs.drop_last()), spec_classify(segs.last()))
    }
}

/// The file's lines: maximal newline-free segments, the final one included
/// even when empty.
pub open spec fn split_lines(s: Seq<u8>) -> Seq<Seq<u8>>
    decreases s.len(),
{
    let e = find_byte(s, 10);
    if e < 0 || e >= s.len() {
        seq![s]
    } else {
        seq![s.subrange(0, e)] + split_lines(s.subrange(e + 1, s.len() as int))
    }
}

/// The per-board sections denoted by the whole file.
pub open spec fn spec_sections(bytes: Seq<u8>) -> Seq<Option<Seq<EntryModel>>> {
    close_state(run_segs(split_lines(bytes)))
}

/// The stored entries of board `b`, or the empty sequence if none.
pub open spec fn sec_at(secs: Seq<Option<Seq<EntryModel>>>, b: int) -> Seq<EntryModel> {
    match secs[b] {
        Some(es) => es,
        None => Seq::empty(),
    }
}

// ---------------------------------------------------------------------------
// Looking entries up and building keys.
// ---------------------------------------------------------------------------

/// Value of the last entry for (`field`, `index`): a later duplicate
/// replaces an earlier one.
pub open spec fn lookup(entries: Seq<EntryModel>, field: Field, index: u8) -> Option<Seq<u8>>
    decreases entries.len(),
{
    if entries.len() == 0 {
        None
    } else if entries.last().0 == field && entries.last().1 == index {
        Some(entries.last().2)
    } else {
        lookup(entries.drop_last(), field, index)
    }
}

/// The color denoted by a value: six hex digits `RRGGBB`. An eight-byte
/// value drops its leading alpha pair first, and whitespace is trimmed
/// after that drop, before the six digits are read.
pub open spec fn spec_parse_color(s: Seq<u8>) -> Result<Rgb, ParseError> {
    let t = spec_trim(
        if s.len() == 8 {
            s.skip(2)
        } else {
            s
        },
    );
    if t.len() != 6 {
        Err(ParseError::BadColor)
    } else {
        match spec_hex_digit(t[0]) {
            None => Err(ParseError::BadHexDigit { digit: t[0] }),
            Some(h0) => match spec_hex_digit(t[1]) {
                None => Err(ParseError::BadHexDigit { digit: t[1] }),
                Some(h1) => match spec_hex_digit(t[2]) {
                    None => Err(ParseError::BadHexDigit { digit: t[2] }),
                    Some(h2) => match spec_hex_digit(t[3]) {
                        None => Err(ParseError::BadHexDigit { digit: t[3] }),
                        Some(h3) => match spec_hex_digit(t[4]) {
                            None => Err(ParseError::BadHexDigit { digit: t[4] }),
                            Some(h4) => match spec_hex_digit(t[5]) {
                                None => Err(ParseError::BadHexDigit { digit: t[5] }),
                                Some(h5) => Ok(
                                    Rgb {
                                        r: (16 * h0 + h1) as u8,
                                        g: (16 * h2 + h3) as u8,
                                        b: (16 * h4 + h5) as u8,
                                    },
                                ),
                            },
                        },
                    },
                },
            },
        }
    }
}

/// The key denoted by a section's entries at `index`: the note entry is
/// resolved and parsed first, then the channel, then the color, and the
/// first failure is the key's error.
pub open spec fn spec_key(entries: Seq<EntryModel>, index: u8) -> Result<Key, ParseError> {
    match lookup(entries, Field::Note, index) {
        None => Err(ParseError::MissingEntry { field: Field::Note, index }),
        Some(nv) => match spec_value(nv, 127) {
            None => Err(ParseError::BadNumber { field: Field::Note, index }),
            Some(note) => match lookup(entries, Field::Chan, index) {
                None => Err(ParseError::MissingEntry { field: Field::Chan, index }),
                Some(cv) => match spec_value(cv, 15) {
                    None => Err(ParseError::BadNumber { field: Field::Chan, index }),
                    Some(chan) => match lookup(entries, Field::Col, index) {
                        None => Err(ParseError::MissingEntry { field: Field::Col, index }),
                        Some(colv) => match spec_parse_color(colv) {
                            Err(e) => Err(e),
                            Ok(color) => Ok(Key { midi_note: note, midi_chan: chan, color }),
                        },
                    },
                },
            },
        },
    }
}

/// The first failing key of a section at or after index `i`, checked in
/// index order.
pub open spec fn first_key_err(entries: Seq<EntryModel>, i: int) -> Option<ParseError>
    decreases 56 - i,
{
    if i < 0 || i >= 56 {
        None
    } else {
        match spec_key(entries, i as u8) {
            Err(e) => Some(e),
            Ok(_) => first_key_err(entries, i + 1),
        }
    }
}

proof fn lemma_first_key_err_skip(entries: Seq<EntryModel>, k: int, i: int)
    requires
        0 <= k <= i <= 56,
        forall|j: int| k <= j < i ==> (#[trigger] spec_key(entries, j as u8)) is Ok,
    ensures
        first_key_err(entries, k) == first_key_err(entries, i),
    decreases i - k,
{
    if k < i {
        lemma_first_key_err_skip(entries, k + 1, i);
    }
}

/// The first error of the whole layout at or after board `b`: a missing
/// section for the smallest such board, else the first failing key of the
/// smallest failing board.
pub open spec fn spec_layout_err(secs: Seq<Option<Seq<EntryModel>>>, b: int) -> Option<ParseError>
    decreases 5 - b,
{
    if b < 0 || b >= 5 {
        None
    } else {
        match secs[b] {
            None => Some(ParseError::MissingSection { board: b as u8 }),
            Some(es) => match first_key_err(es, 0) {
                Some(e) => Some(e),
                None => spec_layout_err(secs, b + 1),
            },
        }
    }
}

// ---------------------------------------------------------------------------
// Executable parsing.
// ---------------------------------------------------------------------------

/// Numeric value of one ASCII hexadecimal digit, upper or lower case.
pub fn hex_digit_to_num(digit: u8) -> (r: Result<u8, ParseError>)
    ensures
        r == match spec_hex_digit(digit) {
            Some(v) => Ok::<u8, ParseError>(v),
            None => Err(ParseError::BadHexDigit { digit }),
        },
{
    if 48 <= digit && digit <= 57 {
        Ok(digit - 48)
    } else if 97 <= digit && digit <= 102 {
        Ok(digit - 87)
    } else if 65 <= digit && digit <= 70 {
        Ok(digit - 55)
    } else {
        Err(ParseError::BadHexDigit { digit })
    }
}

/// Parse a color value.
pub fn parse_color(s: &[u8]) -> (r: Result<Rgb, ParseError>)
    ensures
        r == spec_parse_color(s@),
{
    let n = s.len();
    let raw: &[u8] = if n == 8 {
        &s[2..n]
    } else {
        s
    };
    proof {
        if n == 8 {
            assert(raw@ =~= s@.skip(2));
        }
    }
    let t = trim_slice(raw);
    if t.len() != 6 {
        return Err(ParseError::BadColor);
    }
    let h0 = match hex_digit_to_num(t[0]) {
        Ok(v) => v,
        Err(e) => {
            return Err(e);
        },
    };
    let h1 = match hex_digit_to_num(t[1]) {
        Ok(v) => v,
        Err(e) => {
            return Err(e);
        },
    };
    let h2 = match hex_digit_to_num(t[2]) {
        Ok(v) => v,
        Err(e) => {
            return Err(e);
        },
    };
    let h3 = match hex_digit_to_num(t[3]) {
        Ok(v) => v,
        Err(e) => {
            return Err(e);
        },
    };
    let h4 = match hex_digit_to_num(t[4]) {
        Ok(v) => v,
        Err(e) => {
            return Err(e);
        },
    };
    let h5 = match hex_digit_to_num(t[5]) {
        Ok(v) => v,
        Err(e) => {
            return Err(e);
        },
    };
    Ok(Rgb { r: 16 * h0 + h1, g: 16 * h2 + h3, b: 16 * h4 + h5 })
}

/// Value and well-formedness of a one-to-three digit decimal.
fn dec_digits(s: &[u8]) -> (r: Option<u16>)
    ensures
        match r {
            Some(v) => 1 <= s@.len() <= 3 && all_digits(s@) && v == dec_val(s@),
            None => !(1 <= s@.len() <= 3 && all_digits(s@)),
        },
{
    let n = s.len();
    if n < 1 || n > 3 {
        return None;
    }
    let mut i: usize = 0;
    let mut acc: u16 = 0;
    while i < n
        invariant
            i <= n,
            n == s@.len(),
            n <= 3,
            forall|j: int| 0 <= j < i ==> is_digit(#[trigger] s@[j]),
            acc == dec_val(s@.take(i as int)),
            acc <= 999,
            i < n ==> acc <= 99,
        decreases n - i,
    {
        let d = s[i];
        if d < 48 || d > 57 {
            proof {
                assert(!is_digit(s@[i as int]));
            }
            return None;
        }
        proof {
            assert(s@.take(i + 1 as int).drop_last() =~= s@.take(i as int));
            assert(s@.take(i + 1 as int).last() == s@[i as int]);
            if i + 1 < n {
                // at most two digits consumed so far, so the value stays small
                assert(s@.take(i as int).len() <= 1);
                if s@.take(i as int).len() == 1 {
                    assert(s@.take(i as int).drop_last() =~= Seq::<u8>::empty());
                    assert(dec_val(s@.take(i as int).drop_last()) == 0);
                }
            }
        }
        acc = acc * 10 + (d - 48) as u16;
        i = i + 1;
    }
    proof {
        assert(s@.take(n as int) =~= s@);
    }
    Some(acc)
}

/// Parse a value decimal against its field's maximum.
pub fn parse_value(s: &[u8], max: u8) -> (r: Option<u8>)
    ensures
        r == spec_value(s@, max),
{
    let n = s.len();
    let start: usize = if n > 0 && s[0] == 43 {
        1
    } else {
        0
    };
    let ghost t = if s@.len() > 0 && s@[0] == 43 {
        s@.drop_first()
    } else {
        s@
    };
    proof {
        assert(t =~= s@.subrange(start as int, n as int));
    }
    if start == n {
        return None;
    }
    let mut i: usize = start;
    let mut acc: u16 = 0;
    while i < n
        invariant
            start <= i <= n,
            n == s@.len(),
            t == s@.subrange(start as int, n as int),
            t == (if s@.len() > 0 && s@[0] == 43 {
                s@.drop_first()
            } else {
                s@
            }),
            forall|j: int| start <= j < i ==> is_digit(#[trigger] s@[j]),
            acc == dec_val(s@.subrange(start as int, i as int)),
            acc <= max,
            max <= 255,
        decreases n - i,
    {
        let d = s[i];
        if d < 48 || d > 57 {
            proof {
                assert(t[i - start as int] == s@[i as int]);
                assert(!all_digits(t));
            }
            return None;
        }
        proof {
            assert(s@.subrange(start as int, i + 1 as int).drop_last() =~= s@.subrange(
                start as int,
                i as int,
            ));
            assert(s@.subrange(start as int, i + 1 as int).last() == s@[i as int]);
        }
        let acc2: u16 = acc * 10 + (d - 48) as u16;
        if acc2 > max as u16 {
            proof {
                if all_digits(t) {
                    assert(t.take(i + 1 - start as int) =~= s@.subrange(start as int, i + 1 as int));
                    lemma_dec_val_prefix_le(t, i + 1 - start as int);
                }
            }
            return None;
        }
        acc = acc2;
        i = i + 1;
    }
    proof {
        assert(t =~= s@.subrange(start as int, n as int));
        assert forall|j: int| 0 <= j < t.len() implies is_digit(#[trigger] t[j]) by {
            assert(t[j] == s@[start + j]);
        }
    }
    Some(acc as u8)
}

/// Parse a canonical decimal key index.
fn parse_index(s: &[u8]) -> (r: Option<u8>)
    ensures
        r == spec_index(s@),
{
    if s.len() > 1 && s[0] == 48 {
        return None;
    }
    match dec_digits(s) {
        None => None,
        Some(v) => if v <= 255 {
            Some(v as u8)
        } else {
            None
        },
    }
}

/// Trim ASCII spaces and tabs from both ends.
fn trim_slice(s: &[u8]) -> (r: &[u8])
    ensures
        r@ == spec_trim(s@),
{
    let n = s.len();
    let mut a: usize = 0;
    while a < n && (s[a] == 32 || (9 <= s[a] && s[a] <= 13))
        invariant
            a <= n,
            n == s@.len(),
            forall|j: int| 0 <= j < a ==> is_ws(#[trigger] s@[j]),
        decreases n - a,
    {
        a = a + 1;
    }
    if a == n {
        proof {
            lemma_leading_ws(s@, n as int);
            assert(spec_trim(s@) =~= s@.subrange(0, 0));
        }
        return &s[0..0];
    }
    let mut b: usize = n;
    while b > a && (s[b - 1] == 32 || (9 <= s[b - 1] && s[b - 1] <= 13))
        invariant
            a <= b <= n,
            n == s@.len(),
            forall|j: int| b <= j < n ==> is_ws(#[trigger] s@[j]),
        decreases b,
    {
        b = b - 1;
    }
    proof {
        if b == a {
            assert(is_ws(s@[a as int]));
            assert(false);
        }
        lemma_leading_ws(s@, a as int);
        lemma_trailing_ws(s@, n - b as int);
    }
    &s[a..b]
}

/// Parse a trimmed entry name.
fn entry_name(name: &[u8]) -> (r: Option<(Field, u8)>)
    ensures
        r == spec_entry_name(name@),
{
    let n = name.len();
    if n > 4 && name[0] == 75 && name[1] == 101 && name[2] == 121 && name[3] == 95 {
        proof {
            assert(name@.skip(4) =~= name@.subrange(4, n as int));
        }
        match parse_index(&name[4..n]) {
            Some(i) => Some((Field::Note, i)),
            None => None,
        }
    } else if n > 5 && name[0] == 67 && name[1] == 104 && name[2] == 97 && name[3] == 110
        && name[4] == 95 {
        proof {
            assert(name@.skip(5) =~= name@.subrange(5, n as int));
        }
        match parse_index(&name[5..n]) {
            Some(i) => Some((Field::Chan, i)),
            None => None,
        }
    } else if n > 4 && name[0] == 67 && name[1] == 111 && name[2] == 108 && name[3] == 95 {
        proof {
            assert(name@.skip(4) =~= name@.subrange(4, n as int));
        }
        match parse_index(&name[4..n]) {
            Some(i) => Some((Field::Col, i)),
            None => None,
        }
    } else {
        None
    }
}

/// Classify one raw line.
fn classify_line(line: &[u8]) -> (k: LineKind)
    ensures
        class_matches(spec_classify(line@), k),
{
    let n0 = line.len();
    let s: &[u8] = if n0 > 0 && line[n0 - 1] == 13 {
        &line[0..n0 - 1]
    } else {
        line
    };
    proof {
        assert(s@ =~= strip_cr(line@));
    }
    let n = s.len();
    if n >= 2 && s[0] == 91 && s[n - 1] == 93 {
        if n == 8 && s[1] == 66 && s[2] == 111 && s[3] == 97 && s[4] == 114 && s[5] == 100 && 48
            <= s[6] && s[6] <= 52 {
            proof {
                assert(s@.subrange(1, n - 1 as int)[5] == s@[6]);
            }
            LineKind::BoardHeader(s[6] - 48)
        } else {
            proof {
                let inner = s@.subrange(1, n - 1 as int);
                assert(spec_board_header(inner) is None);
            }
            LineKind::OtherHeader
        }
    } else {
        let mut e: usize = 0;
        while e < n && s[e] != 61
            invariant
                e <= n,
                n == s@.len(),
                forall|j: int| 0 <= j < e ==> s@[j] != 61,
            decreases n - e,
        {
            e = e + 1;
        }
        proof {
            lemma_find_byte(s@, 61, e as int);
        }
        if e == n {
            LineKind::SkipLine
        } else {
            let name = trim_slice(&s[0..e]);
            let value = trim_slice(&s[e + 1..n]);
            match entry_name(name) {
                None => LineKind::SkipLine,
                Some((f, i)) => LineKind::EntryLine(
                    Entry { field: f, index: i, value: vstd::slice::slice_to_vec(value) },
                ),
            }
        }
    }
}

/// The model of the per-board section store.
pub open spec fn sections_model(v: Seq<Option<Section>>) -> Seq<Option<Seq<EntryModel>>> {
    v.map(
        |i: int, s: Option<Section>|
            match s {
                Some(sec) => Some(sec@),
                None => None,
            },
    )
}

impl Section {
    /// Value of the last entry for (`field`, `index`), if any.
    pub fn get(&self, field: Field, index: u8) -> (r: Option<&Vec<u8>>)
        ensures
            match r {
                Some(v) => lookup(self@, field, index) == Some(v@),
                None => lookup(self@, field, index) is None,
            },
    {
        let n = self.entries.len();
        proof {
            assert(self@.take(n as int) =~= self@);
        }
        let mut i: usize = n;
        while i > 0
            invariant
                i <= n,
                n == self.entries@.len(),
                lookup(self@, field, index) == lookup(self@.take(i as int), field, index),
            decreases i,
        {
            proof {
                assert(self@.take(i as int).drop_last() =~= self@.take(i - 1 as int));
                assert(self@.take(i as int).last() == self@[i - 1 as int]);
            }
            let en = &self.entries[i - 1];
            if (en.field == field) && en.index == index {
                return Some(&en.value);
            }
            i = i - 1;
        }
        proof {
            assert(self@.take(0).len() == 0);
        }
        None
    }
}

impl Board {
    /// Exactly 56 keys.
    pub open spec fn wf(&self) -> bool {
        self.keys@.len() == 56
    }

    /// The key denoted by a section at `index`.
    fn key_at(section: &Section, index: u8) -> (r: Result<Key, ParseError>)
        ensures
            r == spec_key(section@, index),
    {
        let nv = match section.get(Field::Note, index) {
            None => {
                return Err(ParseError::MissingEntry { field: Field::Note, index });
            },
            Some(v) => v,
        };
        let note = match parse_value(nv.as_slice(), 127) {
            None => {
                return Err(ParseError::BadNumber { field: Field::Note, index });
            },
            Some(v) => v,
        };
        let cv = match section.get(Field::Chan, index) {
            None => {
                return Err(ParseError::MissingEntry { field: Field::Chan, index });
            },
            Some(v) => v,
        };
        let chan = match parse_value(cv.as_slice(), 15) {
            None => {
                return Err(ParseError::BadNumber { field: Field::Chan, index });
            },
            Some(v) => v,
        };
        let colv = match section.get(Field::Col, index) {
            None => {
                return Err(ParseError::MissingEntry { field: Field::Col, index });
            },
            Some(v) => v,
        };
        let color = match parse_color(colv.as_slice()) {
            Err(e) => {
                return Err(e);
            },
            Ok(c) => c,
        };
        Ok(Key { midi_note: note, midi_chan: chan, color })
    }

    /// Assemble one board from the recognized entries of its section: all 56
    /// keys must resolve, and the first failing key (in index order) is the
    /// board's error.
    pub fn from_section(section: &Section) -> (r: Result<Board, ParseError>)
        ensures
            match r {
                Ok(b) => first_key_err(section@, 0) is None && b.wf() && forall|i: int|
                    0 <= i < 56 ==> #[trigger] spec_key(section@, i as u8) == Ok::<Key, ParseError>(b.keys@[i]),
                Err(e) => first_key_err(section@, 0) == Some(e),
            },
    {
        let mut keys: Vec<Key> = Vec::new();
        let mut i: usize = 0;
        while i < 56
            invariant
                i <= 56,
                keys@.len() == i as int,
                forall|j: int| 0 <= j < i ==> #[trigger] spec_key(section@, j as u8)
                    == Ok::<Key, ParseError>(keys@[j]),
            decreases 56 - i,
        {
            match Self::key_at(section, i as u8) {
                Ok(k) => {
                    keys.push(k);
                },
                Err(e) => {
                    proof {
                        lemma_first_key_err_skip(section@, 0, i as int);
                    }
                    return Err(e);
                },
            }
            i = i + 1;
        }
        proof {
            lemma_first_key_err_skip(section@, 0, 56);
        }
        Ok(Board { keys })
    }
}

proof fn lemma_remove_insert<T>(s: Seq<T>, i: int, x: T)
    requires
        0 <= i < s.len(),
    ensures
        s.remove(i).insert(i, x) =~= s.update(i, x),
{
    s.remove_ensures(i);
    s.remove(i).insert_ensures(i, x);
}

/// Store a finished section in its board's slot, replacing any earlier one.
fn store_section(sections: &mut Vec<Option<Section>>, b: u8, done: Section)
    requires
        (b as int) < old(sections)@.len(),
    ensures
        final(sections)@ == old(sections)@.update(b as int, Some(done)),
{
    let ghost olds = sections@;
    sections.remove(b as usize);
    sections.insert(b as usize, Some(done));
    proof {
        lemma_remove_insert(olds, b as int, Some(done));
        assert(sections@ =~= olds.update(b as int, Some(done)));
    }
}

proof fn lemma_layout_err_skip(secs: Seq<Option<Seq<EntryModel>>>, k: int, b: int)
    requires
        0 <= k <= b <= 5,
        forall|j: int|
            k <= j < b ==> (#[trigger] secs[j]) is Some && first_key_err(sec_at(secs, j), 0)
                is None,
    ensures
        spec_layout_err(secs, k) == spec_layout_err(secs, b),
    decreases b - k,
{
    if k < b {
        lemma_layout_err_skip(secs, k + 1, b);
    }
}

impl Layout {
    /// Exactly 5 boards, each well formed.
    pub open spec fn wf(&self) -> bool {
        self.boards@.len() == 5 && forall|b: int| 0 <= b < 5 ==> (#[trigger] self.boards@[b]).wf()
    }

    /// Parse the contents of a layout file.
    ///
    /// On success the layout is exactly what the file denotes: board `b`'s
    /// key `i` is the key built from the stored section of `[Boardb]`. On
    /// failure the error is the first one the file exhibits, boards in
    /// order, and within a board keys in order.
    pub fn parse(bytes: &[u8]) -> (r: Result<Layout, ParseError>)
        ensures
            match r {
                Ok(l) => spec_layout_err(spec_sections(bytes@), 0) is None && l.wf() && forall|
                    b: int,
                    i: int,
                |
                    0 <= b < 5 && 0 <= i < 56 ==> #[trigger] spec_key(
                        sec_at(spec_sections(bytes@), b),
                        i as u8,
                    ) == Ok::<Key, ParseError>(l.boards@[b].keys@[i]),
                Err(e) => spec_layout_err(spec_sections(bytes@), 0) == Some(e),
            },
    {
        let n = bytes.len();
        let mut pos: usize = 0;
        let mut current: Option<u8> = None;
        let mut entries: Vec<Entry> = Vec::new();
        let mut sections: Vec<Option<Section>> = Vec::new();
        sections.push(None);
        sections.push(None);
        sections.push(None);
        sections.push(None);
        sections.push(None);
        let ghost mut gsegs: Seq<Seq<u8>> = Seq::empty();
        proof {
            assert(sections_model(sections@) =~= init_state().sections);
            assert(entries@.map(|i: int, e: Entry| e@) =~= Seq::<EntryModel>::empty());
            assert(run_segs(gsegs) == init_state());
            assert(bytes@.subrange(0, n as int) =~= bytes@);
            assert(Seq::<Seq<u8>>::empty() + split_lines(bytes@) =~= split_lines(bytes@));
        }
        loop
            invariant_except_break
                pos <= n,
                n == bytes@.len(),
                sections@.len() == 5,
                current matches Some(cb) ==> cb < 5,
                split_lines(bytes@) == gsegs + split_lines(bytes@.subrange(pos as int, n as int)),
                run_segs(gsegs) == (FoldState {
                    current,
                    entries: entries@.map(|i: int, e: Entry| e@),
                    sections: sections_model(sections@),
                }),
            ensures
                sections@.len() == 5,
                current matches Some(cb) ==> cb < 5,
                run_segs(split_lines(bytes@)) == (FoldState {
                    current,
                    entries: entries@.map(|i: int, e: Entry| e@),
                    sections: sections_model(sections@),
                }),
            decreases n - pos,
        {
            let mut e: usize = pos;
            while e < n && bytes[e] != 10
                invariant
                    pos <= e <= n,
                    n == bytes@.len(),
                    forall|j: int| pos <= j < e ==> bytes@[j] != 10,
                decreases n - e,
            {
                e = e + 1;
            }
            let seg = &bytes[pos..e];
            proof {
                let rest = bytes@.subrange(pos as int, n as int);
                assert forall|j: int| 0 <= j < e - pos implies rest[j] != 10 by {
                    assert(rest[j] == bytes@[pos + j]);
                }
                if e < n {
                    assert(rest[e - pos as int] == bytes@[e as int]);
                }
                lemma_find_byte(rest, 10, e - pos as int);
                if e < n {
                    assert(rest.subrange(0, e - pos as int) =~= bytes@.subrange(
                        pos as int,
                        e as int,
                    ));
                    assert(rest.subrange(e - pos + 1 as int, rest.len() as int) =~= bytes@.subrange(
                        e + 1 as int,
                        n as int,
                    ));
                    assert(split_lines(rest) =~= seq![seg@] + split_lines(
                        bytes@.subrange(e + 1 as int, n as int),
                    ));
                } else {
                    assert(split_lines(rest) =~= seq![seg@]);
                }
            }
            let k = classify_line(seg);
            let ghost st_prev = run_segs(gsegs);
            let ghost prev_gsegs = gsegs;
            proof {
                gsegs = gsegs.push(seg@);
                assert(gsegs.drop_last() =~= prev_gsegs);
                assert(gsegs.last() == seg@);
                assert(run_segs(gsegs) == step_line(st_prev, spec_classify(seg@)));
            }
            match k {
                LineKind::BoardHeader(b) => {
                    proof {
                        assert(b < 5);
                    }
                    if let Some(cb) = current {
                        let done = Section { entries };
                        entries = Vec::new();
                        store_section(&mut sections, cb, done);
                        proof {
                            assert(sections_model(sections@) =~= close_state(st_prev));
                        }
                    } else {
                        proof {
                            assert(sections_model(sections@) =~= close_state(st_prev));
                        }
                    }
                    current = Some(b);
                    entries = Vec::new();
                    proof {
                        assert(entries@.map(|i: int, e2: Entry| e2@) =~= Seq::<
                            EntryModel,
                        >::empty());
                    }
                },
                LineKind::OtherHeader => {
                    if let Some(cb) = current {
                        let done = Section { entries };
                        entries = Vec::new();
                        store_section(&mut sections, cb, done);
                        proof {
                            assert(sections_model(sections@) =~= close_state(st_prev));
                        }
                    } else {
                        proof {
                            assert(sections_model(sections@) =~= close_state(st_prev));
                        }
                    }
                    current = None;
                    entries = Vec::new();
                    proof {
                        assert(entries@.map(|i: int, e2: Entry| e2@) =~= Seq::<
                            EntryModel,
                        >::empty());
                    }
                },
                LineKind::EntryLine(en) => {
                    if current.is_some() {
                        let ghost prev_entries = entries@;
                        entries.push(en);
                        proof {
                            assert(entries@.map(|i: int, e2: Entry| e2@) =~= prev_entries.map(
                                |i: int, e2: Entry| e2@,
                            ).push(entries@[entries@.len() - 1]@));
                        }
                    }
                },
                LineKind::SkipLine => {},
            }
            if e == n {
                proof {
                    assert(split_lines(bytes@) =~= gsegs);
                }
                break ;
            } else {
                pos = e + 1;
                proof {
                    assert(split_lines(bytes@) =~= gsegs + split_lines(
                        bytes@.subrange(pos as int, n as int),
                    ));
                }
            }
        }
        let ghost st_final = run_segs(split_lines(bytes@));
        if let Some(cb) = current {
            let done = Section { entries };
            store_section(&mut sections, cb, done);
            proof {
                assert(sections_model(sections@) =~= close_state(st_final));
            }
        } else {
            proof {
                assert(sections_model(sections@) =~= close_state(st_final));
            }
        }
        let ghost secs = spec_sections(bytes@);
        proof {
            assert(sections_model(sections@) == secs);
        }
        let mut boards: Vec<Board> = Vec::new();
        let mut b: usize = 0;
        while b < 5
            invariant
                b <= 5,
                boards@.len() == b as int,
                sections@.len() == 5,
                secs == spec_sections(bytes@),
                sections_model(sections@) == secs,
                spec_layout_err(secs, 0) == spec_layout_err(secs, b as int),
                forall|j: int|
                    0 <= j < b ==> (#[trigger] secs[j]) is Some && first_key_err(sec_at(secs, j), 0)
                        is None,
                forall|j: int| 0 <= j < b ==> (#[trigger] boards@[j]).wf(),
                forall|j: int, i: int|
                    0 <= j < b && 0 <= i < 56 ==> #[trigger] spec_key(sec_at(secs, j), i as u8)
                        == Ok::<Key, ParseError>(boards@[j].keys@[i]),
            decreases 5 - b,
        {
            proof {
                assert(sections_model(sections@)[b as int] == secs[b as int]);
            }
            match &sections[b] {
                None => {
                    return Err(ParseError::MissingSection { board: b as u8 });
                },
                Some(sec) => {
                    proof {
                        assert(secs[b as int] == Some(sec@));
                    }
                    match Board::from_section(sec) {
                        Err(e) => {
                            return Err(e);
                        },
                        Ok(board) => {
                            boards.push(board);
                        },
                    }
                },
            }
            b = b + 1;
        }
        Ok(Layout { boards })
    }
}

} // verus!
