//! Parsing of the device-listing tool's output.
//!
//! The listing prints one line per device. Fields within a line are separated
//! by a tab; the field between the first and second tab is itself split on
//! single spaces, and its second piece is the device identifier that the
//! mapping command needs. A line without a tab, or whose identifier field has
//! no space, is skipped silently rather than reported as an error. A blank
//! listing — empty, or nothing but whitespace — yields no records at all: it
//! is the signal that no device is connected.

use vstd::prelude::*;

verus! {

/// Horizontal tab, the field separator of a listing line.
pub const TAB: u8 = 9;

/// Space, the separator of the pieces inside the identifier field.
pub const SPACE: u8 = 32;

/// Line feed, the line separator of the listing output.
pub const LINE_FEED: u8 = 10;

/// Carriage return, dropped when it stands at the end of a line.
pub const CARRIAGE_RETURN: u8 = 13;

/// Index of the first occurrence of `b` in `s`, or `s.len()` when `s` does
/// not contain `b`.
pub open spec fn first_at(s: Seq<u8>, b: u8) -> nat
    decreases s.len(),
{
    if s.len() == 0 {
        0
    } else if s[0] == b {
        0
    } else {
        (first_at(s.skip(1), b) + 1) as nat
    }
}

/// `first_at` points at an occurrence of `b` when there is one, and nothing
/// before it is an occurrence.
pub proof fn lemma_first_at(s: Seq<u8>, b: u8)
    ensures
        first_at(s, b) <= s.len(),
        first_at(s, b) < s.len() ==> s[first_at(s, b) as int] == b,
        forall|j: int| 0 <= j < first_at(s, b) ==> s[j] != b,
    decreases s.len(),
{
    if s.len() == 0 {
    } else if s[0] == b {
    } else {
        lemma_first_at(s.skip(1), b);
        assert forall|j: int| 0 <= j < first_at(s, b) implies s[j] != b by {
            if j > 0 {
                assert(s.skip(1)[j - 1] == s[j]);
            }
        }
        if first_at(s, b) < s.len() {
            assert(s.skip(1)[first_at(s.skip(1), b) as int] == s[first_at(s, b) as int]);
        }
    }
}

/// An index below every occurrence of `b`, and at an occurrence unless it is
/// `s.len()`, is exactly `first_at(s, b)`.
pub proof fn lemma_first_at_is(s: Seq<u8>, b: u8, i: int)
    requires
        0 <= i <= s.len(),
        forall|j: int| 0 <= j < i ==> s[j] != b,
        i < s.len() ==> s[i] == b,
    ensures
        first_at(s, b) == i,
{
    lemma_first_at(s, b);
    if first_at(s, b) < i {
        assert(s[first_at(s, b) as int] == b);
        assert(false);
    }
    if i < first_at(s, b) {
        assert(s[i] != b);
        assert(false);
    }
}

/// Index of the first occurrence of `b` in `v[from..to]`, or `to` when that
/// range does not contain `b`.
fn find_in(v: &[u8], from: usize, to: usize, b: u8) -> (r: usize)
    requires
        from <= to <= v@.len(),
    ensures
        from <= r <= to,
        r - from == first_at(v@.subrange(from as int, to as int), b),
{
    let ghost window = v@.subrange(from as int, to as int);
    let mut i: usize = from;
    while i < to
        invariant
            from <= i <= to <= v@.len(),
            window == v@.subrange(from as int, to as int),
            forall|j: int| from <= j < i ==> v@[j] != b,
        decreases to - i,
    {
        if v[i] == b {
            proof {
                assert forall|j: int| 0 <= j < i - from implies window[j] != b by {
                    assert(window[j] == v@[from + j]);
                }
                assert(window[i - from] == v@[i as int]);
                lemma_first_at_is(window, b, i - from);
            }
            return i;
        }
        i = i + 1;
    }
    proof {
        assert forall|j: int| 0 <= j < to - from implies window[j] != b by {
            assert(window[j] == v@[from + j]);
        }
        lemma_first_at_is(window, b, (to - from) as int);
    }
    to
}

/// Copy of the byte range `v[from..to]` as a fresh vector.
pub(crate) fn copy_range(v: &[u8], from: usize, to: usize) -> (r: Vec<u8>)
    requires
        from <= to <= v@.len(),
    ensures
        r@ == v@.subrange(from as int, to as int),
{
    let mut r: Vec<u8> = Vec::new();
    let mut i: usize = from;
    while i < to
        invariant
            from <= i <= to <= v@.len(),
            r@ == v@.subrange(from as int, i as int),
        decreases to - i,
    {
        r.push(v[i]);
        i = i + 1;
        proof {
            assert(v@.subrange(from as int, i as int)
                =~= v@.subrange(from as int, i - 1).push(v@[i - 1]));
        }
    }
    r
}

/// The field of a listing line between its first and second tab, running to
/// the end of the line when there is no second tab.
pub open spec fn line_field(line: Seq<u8>) -> Seq<u8> {
    let rest = line.skip(first_at(line, TAB) as int + 1);
    rest.take(first_at(rest, TAB) as int)
}

/// The device identifier of one listing line: the piece of the identifier
/// field between its first and second space, running to the end of the field
/// when there is no second space. `None` when the line has no tab or the
/// identifier field has no space; such a line is skipped.
pub open spec fn parse_line(line: Seq<u8>) -> Option<Seq<u8>> {
    if first_at(line, TAB) >= line.len() {
        None
    } else {
        let field = line_field(line);
        if first_at(field, SPACE) >= field.len() {
            None
        } else {
            let rest = field.skip(first_at(field, SPACE) as int + 1);
            Some(rest.take(first_at(rest, SPACE) as int))
        }
    }
}

/// A line with a carriage return at its end, left by a listing that ends its
/// lines with a carriage return before the line feed, loses that byte.
pub open spec fn strip_trailing_cr(line: Seq<u8>) -> Seq<u8> {
    if line.len() > 0 && line[line.len() - 1] == CARRIAGE_RETURN {
        line.take(line.len() - 1)
    } else {
        line
    }
}

/// Zero or one records of a parsed line.
pub open spec fn record_of(r: Option<Seq<u8>>) -> Seq<Seq<u8>> {
    match r {
        Some(id) => seq![id],
        None => Seq::empty(),
    }
}

/// Vertical tab, whitespace in a blank listing.
pub const VERTICAL_TAB: u8 = 11;

/// Form feed, whitespace in a blank listing.
pub const FORM_FEED: u8 = 12;

/// The whitespace bytes: a listing made only of these is blank, and trimming
/// it would leave nothing.
pub open spec fn is_whitespace_byte(b: u8) -> bool {
    b == SPACE || b == TAB || b == LINE_FEED || b == CARRIAGE_RETURN || b == VERTICAL_TAB || b
        == FORM_FEED
}

/// Whether a listing is blank: empty, or nothing but whitespace bytes.
pub open spec fn all_whitespace(s: Seq<u8>) -> bool {
    forall|i: int| 0 <= i < s.len() ==> is_whitespace_byte(s[i])
}

/// The identifiers of the listing's lines, one per well-formed line, in line
/// order and without deduplication. Lines end at a line feed; a carriage
/// return just before a line feed belongs to the line ending, not to the
/// line. A final line needs no line ending.
pub open spec fn parse_lines(s: Seq<u8>) -> Seq<Seq<u8>>
    decreases s.len(),
{
    if s.len() == 0 {
        Seq::empty()
    } else {
        let n = first_at(s, LINE_FEED);
        if n >= s.len() {
            record_of(parse_line(s))
        } else {
            record_of(parse_line(strip_trailing_cr(s.take(n as int))))
                + parse_lines(s.skip(n as int + 1))
        }
    }
}

/// The identifiers of a whole listing. A blank listing — empty, or nothing
/// but whitespace — yields no records at all, and is the signal that no
/// device is connected; any other listing yields one record per well-formed
/// line, as `parse_lines` says.
pub open spec fn parse_devices_spec(s: Seq<u8>) -> Seq<Seq<u8>> {
    if all_whitespace(s) {
        Seq::empty()
    } else {
        parse_lines(s)
    }
}

/// A line without a tab byte yields no record.
pub proof fn lemma_line_without_tab_skipped(line: Seq<u8>)
    requires
        forall|i: int| 0 <= i < line.len() ==> line[i] != TAB,
    ensures
        parse_line(line) is None,
{
    lemma_first_at_is(line, TAB, line.len() as int);
}

/// A line with a tab, but without a space anywhere in the field after that
/// tab — a single token where the identifier field should stand — yields no
/// record.
pub proof fn lemma_line_single_token_skipped(line: Seq<u8>)
    requires
        first_at(line, TAB) < line.len(),
        forall|i: int| 0 <= i < line_field(line).len() ==> line_field(line)[i] != SPACE,
    ensures
        parse_line(line) is None,
{
    lemma_first_at_is(line_field(line), SPACE, line_field(line).len() as int);
}

/// No line of a listing without a tab byte yields a record.
proof fn lemma_no_tab_no_line_records(s: Seq<u8>)
    requires
        forall|i: int| 0 <= i < s.len() ==> s[i] != TAB,
    ensures
        parse_lines(s) == Seq::<Seq<u8>>::empty(),
    decreases s.len(),
{
    if s.len() == 0 {
    } else {
        let n = first_at(s, LINE_FEED);
        lemma_first_at(s, LINE_FEED);
        if n >= s.len() {
            lemma_line_without_tab_skipped(s);
        } else {
            let line = strip_trailing_cr(s.take(n as int));
            assert forall|i: int| 0 <= i < line.len() implies line[i] != TAB by {
                assert(line[i] == s[i]);
            }
            lemma_line_without_tab_skipped(line);
            assert forall|i: int| 0 <= i < s.skip(n as int + 1).len()
                implies #[trigger] s.skip(n as int + 1)[i] != TAB by {
                assert(s.skip(n as int + 1)[i] == s[n + 1 + i]);
            }
            lemma_no_tab_no_line_records(s.skip(n as int + 1));
            assert(record_of(parse_line(line)) + parse_lines(s.skip(n as int + 1))
                =~~= Seq::<Seq<u8>>::empty());
        }
    }
}

/// A blank listing — the empty one, and one made only of whitespace bytes,
/// tabs among them — parses to no records at all: it reads as "no device
/// connected", the same as empty output.
pub proof fn lemma_blank_listing_no_records(s: Seq<u8>)
    requires
        all_whitespace(s),
    ensures
        parse_devices_spec(s) == Seq::<Seq<u8>>::empty(),
{
}

/// A listing without a tab byte anywhere — however much other text it holds —
/// parses to no records at all: every line of it is malformed and skipped.
pub proof fn lemma_no_tab_no_records(s: Seq<u8>)
    requires
        forall|i: int| 0 <= i < s.len() ==> s[i] != TAB,
    ensures
        parse_devices_spec(s) == Seq::<Seq<u8>>::empty(),
{
    if !all_whitespace(s) {
        lemma_no_tab_no_line_records(s);
    }
}

/// One device found in the listing, named by the identifier that the mapping
/// command takes as its argument.
#[derive(Clone, Debug, PartialEq, Eq)]
pub struct DeviceRecord {
    /// The raw bytes of the identifier, exactly as the listing printed them.
    pub identifier: Vec<u8>,
}

impl View for DeviceRecord {
    type V = Seq<u8>;

    open spec fn view(&self) -> Seq<u8> {
        self.identifier@
    }
}

/// The identifiers of a sequence of device records.
pub open spec fn records_view(rs: Seq<DeviceRecord>) -> Seq<Seq<u8>> {
    rs.map_values(|d: DeviceRecord| d@)
}

/// The identifier of the line `v[start..end]`, or `None` when that line is
/// malformed and skipped.
fn parse_line_in(v: &[u8], start: usize, end: usize) -> (r: Option<Vec<u8>>)
    requires
        start <= end <= v@.len(),
    ensures
        match r {
            Some(id) => parse_line(v@.subrange(start as int, end as int)) == Some(id@),
            None => parse_line(v@.subrange(start as int, end as int)) is None,
        },
{
    let ghost line = v@.subrange(start as int, end as int);
    let tab1 = find_in(v, start, end, TAB);
    if tab1 == end {
        proof {
            assert(first_at(line, TAB) == line.len());
        }
        return None;
    }
    let tab2 = find_in(v, tab1 + 1, end, TAB);
    proof {
        assert(line.skip(first_at(line, TAB) as int + 1)
            =~= v@.subrange(tab1 as int + 1, end as int));
        assert(line_field(line) =~= v@.subrange(tab1 as int + 1, tab2 as int));
    }
    let sp1 = find_in(v, tab1 + 1, tab2, SPACE);
    proof {
        assert(first_at(line_field(line), SPACE) == sp1 - (tab1 + 1));
    }
    if sp1 == tab2 {
        return None;
    }
    let sp2 = find_in(v, sp1 + 1, tab2, SPACE);
    proof {
        assert(line_field(line).skip(first_at(line_field(line), SPACE) as int + 1)
            =~= v@.subrange(sp1 as int + 1, tab2 as int));
    }
    let id = copy_range(v, sp1 + 1, sp2);
    proof {
        assert(v@.subrange(sp1 as int + 1, tab2 as int).take((sp2 - (sp1 + 1)) as int)
            =~= v@.subrange(sp1 as int + 1, sp2 as int));
    }
    Some(id)
}

/// Whether the listing is blank: empty, or nothing but whitespace bytes.
fn is_blank(v: &[u8]) -> (blank: bool)
    ensures
        blank == all_whitespace(v@),
{
    let n = v.len();
    let mut i: usize = 0;
    while i < n
        invariant
            i <= n == v@.len(),
            forall|j: int| 0 <= j < i ==> is_whitespace_byte(v@[j]),
        decreases n - i,
    {
        let b = v[i];
        if !(b == SPACE || b == TAB || b == LINE_FEED || b == CARRIAGE_RETURN || b == VERTICAL_TAB
            || b == FORM_FEED) {
            proof {
                assert(!is_whitespace_byte(v@[i as int]));
            }
            return false;
        }
        i = i + 1;
    }
    true
}

/// Every device identifier of the listing `text`, one record per well-formed
/// line, in line order and without deduplication. Malformed lines — no tab,
/// or no space after the first tab — yield no record, and a blank listing —
/// empty or nothing but whitespace — yields none at all.
pub fn parse_devices(text: &[u8]) -> (r: Vec<DeviceRecord>)
    ensures
        records_view(r@) == parse_devices_spec(text@),
{
    if is_blank(text) {
        let r: Vec<DeviceRecord> = Vec::new();
        proof {
            assert(records_view(r@) =~~= Seq::empty());
        }
        return r;
    }
    let n = text.len();
    let mut out: Vec<DeviceRecord> = Vec::new();
    let mut pos: usize = 0;
    proof {
        assert(text@.skip(0) =~= text@);
        assert(records_view(out@) =~~= Seq::empty());
        assert(records_view(out@) + parse_lines(text@) =~~= parse_lines(text@));
    }
    while pos < n
        invariant
            pos <= n == text@.len(),
            parse_lines(text@)
                =~~= records_view(out@) + parse_lines(text@.skip(pos as int)),
        decreases n - pos,
    {
        let ghost rest = text@.skip(pos as int);
        let ghost out_before = out@;
        let nl = find_in(text, pos, n, LINE_FEED);
        proof {
            assert(rest =~= text@.subrange(pos as int, n as int));
            assert(first_at(rest, LINE_FEED) == nl - pos);
        }
        if nl == n {
            let parsed = parse_line_in(text, pos, n);
            if let Some(id) = parsed {
                out.push(DeviceRecord { identifier: id });
            }
            proof {
                assert(parse_lines(rest) =~~= record_of(parse_line(rest)));
                assert(records_view(out@)
                    =~~= records_view(out_before) + record_of(parse_line(rest)));
                assert(text@.skip(n as int) =~= Seq::<u8>::empty());
                assert(records_view(out@) + parse_lines(text@.skip(n as int))
                    =~~= records_view(out_before) + parse_lines(rest));
            }
            pos = n;
        } else {
            let line_end = if nl > pos && text[nl - 1] == CARRIAGE_RETURN {
                nl - 1
            } else {
                nl
            };
            let ghost line = strip_trailing_cr(rest.take((nl - pos) as int));
            proof {
                assert(rest.take((nl - pos) as int) =~= text@.subrange(pos as int, nl as int));
                if nl > pos && text@[nl - 1] == CARRIAGE_RETURN {
                    assert(line =~= text@.subrange(pos as int, nl - 1));
                } else {
                    assert(line =~= text@.subrange(pos as int, nl as int));
                }
                assert(line =~= text@.subrange(pos as int, line_end as int));
            }
            let parsed = parse_line_in(text, pos, line_end);
            if let Some(id) = parsed {
                out.push(DeviceRecord { identifier: id });
            }
            proof {
                assert(parse_lines(rest)
                    =~~= record_of(parse_line(line)) + parse_lines(rest.skip(nl - pos + 1)));
                assert(rest.skip(nl - pos + 1) =~= text@.skip(nl + 1));
                assert(records_view(out@)
                    =~~= records_view(out_before) + record_of(parse_line(line)));
                assert(records_view(out@) + parse_lines(text@.skip(nl + 1))
                    =~~= records_view(out_before) + parse_lines(rest));
            }
            pos = nl + 1;
        }
    }
    proof {
        assert(text@.skip(pos as int) =~= Seq::<u8>::empty());
        assert(records_view(out@) + parse_lines(text@.skip(pos as int))
            =~~= records_view(out@));
    }
    out
}

} // verus!
