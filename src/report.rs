use vstd::prelude::*;
use vstd::std_specs::iter::IteratorSpec;

use crate::checker::{CheckErr, ErrView, Reveal, RevealView};
use crate::type_var::{decimal, decimal_text, ty_text};

verus! {

/// How a piece of a report line is to be shown.
#[derive(Debug, Clone, Copy, PartialEq, Eq, Structural)]
pub enum Style {
    Plain,
    Success,
    Heading,
    ErrorTag,
    RevealTag,
    Context,
    Caret,
}

/// A piece of a report line, with its style.
#[derive(Debug, Clone)]
pub struct Segment {
    pub style: Style,
    pub text: String,
}

impl View for Segment {
    type V = (Style, Seq<char>);

    open spec fn view(&self) -> (Style, Seq<char>) {
        (self.style, self.text@)
    }
}

pub type LineView = Seq<(Style, Seq<char>)>;

pub open spec fn line_view(l: Vec<Segment>) -> LineView {
    l@.map_values(|s: Segment| s@)
}

pub open spec fn lines_view(ls: Seq<Vec<Segment>>) -> Seq<LineView> {
    ls.map_values(|l: Vec<Segment>| line_view(l))
}

/// The positions of the newline characters of a text, in order.
pub open spec fn newlines(s: Seq<char>) -> Seq<int>
    decreases s.len(),
{
    if s.len() == 0 {
        Seq::empty()
    } else if s.last() == '\n' {
        newlines(s.drop_last()).push(s.len() - 1)
    } else {
        newlines(s.drop_last())
    }
}

/// Where line `l` (from 0) of a text starts.
pub open spec fn line_start(s: Seq<char>, l: int) -> int {
    if l == 0 {
        0
    } else {
        newlines(s)[l - 1] + 1
    }
}

/// Line `l` (from 0) of a text, without its line ending: a line ends at a newline,
/// and a carriage return just before that newline is not part of it. A line past
/// the end of the text is empty.
pub open spec fn line_text(s: Seq<char>, l: int) -> Seq<char> {
    let nl = newlines(s);
    if 0 <= l < nl.len() {
        let a = line_start(s, l);
        let b = nl[l];
        if b > a && s[b - 1] == '\r' {
            s.subrange(a, b - 1)
        } else {
            s.subrange(a, b)
        }
    } else if l == nl.len() && line_start(s, l) < s.len() {
        s.subrange(line_start(s, l), s.len() as int)
    } else {
        Seq::empty()
    }
}

pub open spec fn spaces(n: nat) -> Seq<char> {
    Seq::new(n, |i: int| ' ')
}

pub open spec fn carets(n: nat) -> Seq<char> {
    Seq::new(n, |i: int| '^')
}

/// A text right-aligned in a field of the given width.
pub open spec fn pad_left(t: Seq<char>, w: nat) -> Seq<char> {
    if t.len() < w {
        spaces((w - t.len()) as nat) + t
    } else {
        t
    }
}

/// `file:line:column` of a place, with lines counted from 1.
pub open spec fn location(file: Seq<char>, row: nat, column: nat) -> Seq<char> {
    file + ":"@ + decimal(row + 1) + ":"@ + decimal(column)
}

pub open spec fn header_line(file: Seq<char>, e: ErrView) -> LineView {
    seq![
        (Style::Plain, "["@),
        (Style::ErrorTag, "Error"@),
        (Style::Plain, "] "@ + location(file, e.start.1 as nat, e.start.2 as nat) + " "@ + e.msg + " "@),
    ]
}

/// The width of the line numbers in the block of a diagnostic on a row.
pub open spec fn gutter(row: nat) -> nat {
    decimal(row).len() + 1
}

pub open spec fn context_line(src: Seq<char>, l: nat, w: nat) -> LineView {
    seq![
        (Style::Context, pad_left(decimal(l + 1), w) + " | "@),
        (Style::Context, line_text(src, l as int)),
    ]
}

/// The first of the (up to two) lines of context shown for a row.
pub open spec fn first_context(row: nat) -> nat {
    if row >= 1 {
        (row - 1) as nat
    } else {
        0
    }
}

pub open spec fn context_lines(src: Seq<char>, row: nat) -> Seq<LineView> {
    Seq::new(
        (row + 1 - first_context(row)) as nat,
        |k: int| context_line(src, (first_context(row) + k) as nat, gutter(row)),
    )
}

pub open spec fn underline(e: ErrView) -> LineView {
    match e.end {
        Some(end) => seq![
            (Style::Context, spaces(gutter(e.start.1 as nat)) + " | "@),
            (Style::Plain, spaces(e.start.2 as nat)),
            (Style::Caret, carets(
                if end.2 >= e.start.2 {
                    (end.2 - e.start.2) as nat
                } else {
                    0
                },
            )),
        ],
        None => seq![(Style::Plain, spaces(e.start.2 as nat)), (Style::Caret, Seq::empty())],
    }
}

/// The lines shown for one diagnostic: where it is and what it says, the source
/// lines up to its row, and an underline of its span.
pub open spec fn error_block(src: Seq<char>, file: Seq<char>, e: ErrView) -> Seq<LineView> {
    seq![header_line(file, e)] + context_lines(src, e.start.1 as nat) + seq![underline(e)]
}

pub open spec fn error_blocks(src: Seq<char>, file: Seq<char>, errs: Seq<ErrView>) -> Seq<LineView>
    decreases errs.len(),
{
    if errs.len() == 0 {
        Seq::empty()
    } else {
        error_blocks(src, file, errs.drop_last()) + error_block(src, file, errs.last())
    }
}

pub open spec fn success_line() -> LineView {
    seq![(Style::Success, "Type Checks Passed!"@)]
}

/// The report on a list of diagnostics: a line of success when there is none,
/// else a count followed by the block of each diagnostic in order.
pub open spec fn report_of(src: Seq<char>, file: Seq<char>, errs: Seq<ErrView>) -> Seq<LineView> {
    if errs.len() == 0 {
        seq![success_line()]
    } else {
        seq![seq![(Style::Heading, decimal(errs.len()) + " Error(s) found:"@)]] + error_blocks(
            src,
            file,
            errs,
        )
    }
}

/// The line that shows a revealed type.
pub open spec fn reveal_line(file: Seq<char>, r: RevealView) -> LineView {
    seq![
        (Style::Plain, "["@),
        (Style::RevealTag, "Reveal type"@),
        (Style::Plain, "] "@ + location(file, r.row as nat, r.column as nat) + " "@ + r.name
            + " -> "@ + ty_text(r.ty)),
    ]
}

fn seg(style: Style, text: String) -> (r: Segment)
    ensures
        r@ == (style, text@),
{
    Segment { style, text }
}

fn repeat_char(c: &str, n: usize) -> (r: String)
    requires
        c@.len() == 1,
    ensures
        r@ == Seq::new(n as nat, |i: int| c@[0]),
{
    let mut s = String::new();
    let mut i: usize = 0;
    while i < n
        invariant
            c@.len() == 1,
            0 <= i <= n,
            s@ == Seq::new(i as nat, |j: int| c@[0]),
        decreases n - i,
    {
        s.append(c);
        i = i + 1;
        assert(s@ =~= Seq::new(i as nat, |j: int| c@[0]));
    }
    s
}

fn spaces_text(n: usize) -> (r: String)
    ensures
        r@ == spaces(n as nat),
{
    proof {
        reveal_strlit(" ");
    }
    let r = repeat_char(" ", n);
    assert(r@ =~= spaces(n as nat));
    r
}

fn carets_text(n: usize) -> (r: String)
    ensures
        r@ == carets(n as nat),
{
    proof {
        reveal_strlit("^");
    }
    let r = repeat_char("^", n);
    assert(r@ =~= carets(n as nat));
    r
}

fn pad_left_text(t: String, w: usize) -> (r: String)
    ensures
        r@ == pad_left(t@, w as nat),
{
    let n = t.as_str().unicode_len();
    if n < w {
        let mut s = spaces_text(w - n);
        s.append(t.as_str());
        s
    } else {
        t
    }
}

fn location_text(file: &str, row: usize, column: usize) -> (r: String)
    ensures
        r@ == location(file@, row as nat, column as nat),
{
    let mut s = String::from_str(file);
    s.append(":");
    let l = decimal_text(row as u128 + 1);
    s.append(l.as_str());
    s.append(":");
    let c = decimal_text(column as u128);
    s.append(c.as_str());
    s
}

/// The positions of the newline characters of a text.
fn newline_positions(chars: &Vec<char>) -> (r: Vec<usize>)
    ensures
        r@.len() == newlines(chars@).len(),
        forall|k: int| 0 <= k < r@.len() ==> r@[k] as int == #[trigger] newlines(chars@)[k],
{
    let mut r: Vec<usize> = Vec::new();
    let mut i: usize = 0;
    while i < chars.len()
        invariant
            0 <= i <= chars@.len(),
            r@.len() == newlines(chars@.take(i as int)).len(),
            forall|k: int| 0 <= k < r@.len() ==> r@[k] as int == #[trigger] newlines(chars@.take(i as int))[k],
        decreases chars.len() - i,
    {
        proof {
            assert(chars@.take(i + 1).drop_last() =~= chars@.take(i as int));
        }
        if chars[i] == '\n' {
            r.push(i);
        }
        i = i + 1;
    }
    assert(chars@.take(chars@.len() as int) =~= chars@);
    r
}

/// All characters of a text, in order.
fn chars_of(s: &str) -> (r: Vec<char>)
    ensures
        r@ == s@,
{
    let mut out: Vec<char> = Vec::new();
    let mut it = s.chars();
    loop
        invariant
            it.remaining() == s@.skip(out@.len() as int),
            out@ == s@.take(out@.len() as int),
            out@.len() <= s@.len(),
        ensures
            out@ == s@,
        decreases s@.len() - out@.len(),
    {
        let ghost before = it.remaining();
        match it.next() {
            Some(c) => {
                proof {
                    assert(before.len() > 0);
                    assert(c == s@[out@.len() as int]);
                    assert(s@.skip(out@.len() as int).drop_first() =~= s@.skip(out@.len() as int + 1));
                }
                out.push(c);
                assert(out@ =~= s@.take(out@.len() as int));
            },
            None => {
                assert(before.len() == 0);
                assert(s@.take(out@.len() as int) =~= s@);
                break ;
            },
        }
    }
    out
}

/// A source text split at its newlines, for showing lines of it.
pub struct SourceLines {
    src: String,
    chars: Vec<char>,
    newlines: Vec<usize>,
}

impl SourceLines {
    pub closed spec fn text(&self) -> Seq<char> {
        self.src@
    }

    pub closed spec fn wf(&self) -> bool {
        &&& self.chars@ == self.src@
        &&& self.newlines@.len() == newlines(self.src@).len()
        &&& forall|k: int|
            0 <= k < self.newlines@.len() ==> self.newlines@[k] as int == #[trigger] newlines(
                self.src@,
            )[k]
    }

    pub fn new(src: &str) -> (r: SourceLines)
        ensures
            r.wf(),
            r.text() == src@,
    {
        let chars = chars_of(src);
        let newlines = newline_positions(&chars);
        SourceLines { src: String::from_str(src), chars, newlines }
    }

    /// Line `l` (from 0) of the text, empty past its end.
    pub fn line(&self, l: usize) -> (r: String)
        requires
            self.wf(),
        ensures
            r@ == line_text(self.text(), l as int),
    {
        proof {
            lemma_newlines_bounds(self.src@);
        }
        let n = self.newlines.len();
        assert forall|k: int| 0 <= k < n implies self.newlines@[k] < self.chars@.len() by {
            assert(self.newlines@[k] as int == newlines(self.src@)[k]);
            assert(newlines(self.src@)[k] < self.src@.len());
        }
        let start = if l == 0 {
            0
        } else if l <= n {
            let p = self.newlines[l - 1];
            let m = self.chars.len();
            assert(self.newlines@[l - 1] < self.chars@.len());
            assert(p < m);
            p + 1
        } else {
            return String::new();
        };
        if l < n {
            let b = self.newlines[l];
            assert(self.newlines@[l as int] as int == newlines(self.src@)[l as int]);
            assert(b < self.chars@.len());
            if l > 0 {
                assert(self.newlines@[l - 1] as int == newlines(self.src@)[l - 1]);
                assert(newlines(self.src@)[l - 1] < newlines(self.src@)[l as int]);
            }
            let end = if b > start && self.chars[b - 1] == '\r' {
                b - 1
            } else {
                b
            };
            String::from_str(self.src.as_str().substring_char(start, end))
        } else if start < self.chars.len() {
            String::from_str(self.src.as_str().substring_char(start, self.chars.len()))
        } else {
            String::new()
        }
    }
}

fn header(file: &str, e: &CheckErr) -> (r: Vec<Segment>)
    ensures
        line_view(r) == header_line(file@, e@),
{
    let mut t = String::from_str("] ");
    let loc = location_text(file, e.start_place.row, e.start_place.column);
    t.append(loc.as_str());
    t.append(" ");
    t.append(e.msg.as_str());
    t.append(" ");
    let r = vec![
        seg(Style::Plain, String::from_str("[")),
        seg(Style::ErrorTag, String::from_str("Error")),
        seg(Style::Plain, t),
    ];
    assert(line_view(r) =~= header_line(file@, e@));
    r
}

fn context(src: &SourceLines, l: usize, w: usize) -> (r: Vec<Segment>)
    requires
        src.wf(),
    ensures
        line_view(r) == context_line(src.text(), l as nat, w as nat),
{
    let mut p = pad_left_text(decimal_text(l as u128 + 1), w);
    p.append(" | ");
    let r = vec![seg(Style::Context, p), seg(Style::Context, src.line(l))];
    assert(line_view(r) =~= context_line(src.text(), l as nat, w as nat));
    r
}

fn underline_of(e: &CheckErr) -> (r: Vec<Segment>)
    ensures
        line_view(r) == underline(e@),
{
    let col = e.start_place.column;
    match &e.end_place {
        Some(end) => {
            proof {
                lemma_decimal_len(e.start_place.row as nat);
            }
            let mut p = spaces_text(decimal_text(e.start_place.row as u128).as_str().unicode_len() + 1);
            p.append(" | ");
            let n = if end.column >= col {
                end.column - col
            } else {
                0
            };
            let r = vec![
                seg(Style::Context, p),
                seg(Style::Plain, spaces_text(col)),
                seg(Style::Caret, carets_text(n)),
            ];
            assert(line_view(r) =~= underline(e@));
            r
        },
        None => {
            let r = vec![seg(Style::Plain, spaces_text(col)), seg(Style::Caret, String::new())];
            assert(line_view(r) =~= underline(e@));
            r
        },
    }
}

proof fn lemma_decimal_len(n: nat)
    ensures
        1 <= decimal(n).len() <= n / 2 + 1,
    decreases n,
{
    reveal_strlit("0");
    reveal_strlit("1");
    reveal_strlit("2");
    reveal_strlit("3");
    reveal_strlit("4");
    reveal_strlit("5");
    reveal_strlit("6");
    reveal_strlit("7");
    reveal_strlit("8");
    reveal_strlit("9");
    if n >= 10 {
        lemma_decimal_len(n / 10);
    }
}

pub proof fn lemma_lines_push(ls: Seq<Vec<Segment>>, l: Vec<Segment>)
    ensures
        lines_view(ls.push(l)) == lines_view(ls).push(line_view(l)),
{
    assert(lines_view(ls.push(l)) =~= lines_view(ls).push(line_view(l)));
}

/// Append the lines of one diagnostic's block.
fn push_block(out: &mut Vec<Vec<Segment>>, src: &SourceLines, file: &str, e: &CheckErr)
    requires
        src.wf(),
    ensures
        lines_view(final(out)@) == lines_view(old(out)@) + error_block(src.text(), file@, e@),
{
    let ghost ev = e@;
    let ghost lo0 = lines_view(out@);
    let h = header(file, e);
    proof {
        lemma_lines_push(out@, h);
    }
    out.push(h);
    let row = e.start_place.row;
    let lo = if row >= 1 {
        row - 1
    } else {
        0
    };
    proof {
        lemma_decimal_len(row as nat);
    }
    let w = decimal_text(row as u128).as_str().unicode_len() + 1;
    let ghost base = lo0.push(header_line(file@, ev));
    let ghost cl = context_lines(src.text(), row as nat);
    assert(cl.take(0) =~= Seq::<LineView>::empty());
    assert(base + cl.take(0) =~= base);
    let count = row - lo;
    let mut k: usize = 0;
    while k <= count
        invariant
            src.wf(),
            ev == e@,
            row == ev.start.1,
            lo == first_context(row as nat),
            count == row - lo,
            count <= 1,
            w == gutter(row as nat),
            cl == context_lines(src.text(), row as nat),
            cl.len() == count + 1,
            0 <= k <= count + 1,
            lines_view(out@) == base + cl.take(k as int),
        decreases count + 1 - k,
    {
        let c = context(src, lo + k, w);
        proof {
            lemma_lines_push(out@, c);
            assert(cl[k as int] == context_line(src.text(), (lo + k) as nat, w as nat));
            assert(cl.take(k + 1) =~= cl.take(k as int).push(cl[k as int]));
        }
        out.push(c);
        proof {
            assert(lines_view(out@) =~= base + cl.take(k + 1));
        }
        k = k + 1;
    }
    let u = underline_of(e);
    proof {
        lemma_lines_push(out@, u);
    }
    out.push(u);
    proof {
        assert(cl.take(k as int) =~= cl);
        assert(lines_view(out@) =~= lo0 + error_block(src.text(), file@, ev));
    }
}

/// The report on a list of diagnostics.
pub fn render_report(src: &SourceLines, file: &str, errors: &Vec<CheckErr>) -> (r: Vec<Vec<Segment>>)
    requires
        src.wf(),
    ensures
        lines_view(r@) == report_of(src.text(), file@, errors@.map_values(|e: CheckErr| e@)),
{
    let ghost ev = errors@.map_values(|e: CheckErr| e@);
    let mut out: Vec<Vec<Segment>> = Vec::new();
    if errors.len() == 0 {
        let l = vec![seg(Style::Success, String::from_str("Type Checks Passed!"))];
        assert(line_view(l) =~= success_line());
        proof {
            lemma_lines_push(out@, l);
        }
        out.push(l);
        assert(lines_view(out@) =~= report_of(src.text(), file@, ev));
        return out;
    }
    let mut h = decimal_text(errors.len() as u128);
    h.append(" Error(s) found:");
    let l = vec![seg(Style::Heading, h)];
    assert(line_view(l) =~= seq![(Style::Heading, decimal(ev.len()) + " Error(s) found:"@)]);
    proof {
        lemma_lines_push(out@, l);
    }
    out.push(l);
    let ghost first = lines_view(out@);
    assert(ev.take(0) =~= Seq::<ErrView>::empty());
    assert(first + error_blocks(src.text(), file@, ev.take(0)) =~= first);
    let mut i: usize = 0;
    while i < errors.len()
        invariant
            src.wf(),
            ev == errors@.map_values(|e: CheckErr| e@),
            0 <= i <= errors@.len(),
            lines_view(out@) == first + error_blocks(src.text(), file@, ev.take(i as int)),
        decreases errors.len() - i,
    {
        push_block(&mut out, src, file, &errors[i]);
        proof {
            assert(ev.take(i + 1).drop_last() =~= ev.take(i as int));
            assert(ev.take(i + 1).last() == errors@[i as int]@);
            assert(lines_view(out@) =~= first + error_blocks(src.text(), file@, ev.take(i + 1)));
        }
        i = i + 1;
    }
    proof {
        assert(ev.take(errors@.len() as int) =~= ev);
        assert(lines_view(out@) =~= report_of(src.text(), file@, ev));
    }
    out
}

/// The line that shows a revealed type.
pub fn render_reveal(file: &str, r: &Reveal) -> (l: Vec<Segment>)
    ensures
        line_view(l) == reveal_line(file@, r@),
{
    let mut t = String::from_str("] ");
    let loc = location_text(file, r.row, r.column);
    t.append(loc.as_str());
    t.append(" ");
    t.append(r.name.as_str());
    t.append(" -> ");
    let ty = r.ty.to_text();
    t.append(ty.as_str());
    let l = vec![
        seg(Style::Plain, String::from_str("[")),
        seg(Style::RevealTag, String::from_str("Reveal type")),
        seg(Style::Plain, t),
    ];
    assert(line_view(l) =~= reveal_line(file@, r@));
    l
}

/// The report is the single line of success exactly when there is no diagnostic.
pub proof fn lemma_report_success(src: Seq<char>, file: Seq<char>, errs: Seq<ErrView>)
    ensures
        (report_of(src, file, errs) == seq![success_line()]) <==> errs.len() == 0,
{
    if errs.len() > 0 {
        let first = report_of(src, file, errs)[0];
        assert(first[0].0 == Style::Heading);
        assert(success_line()[0].0 == Style::Success);
        assert(report_of(src, file, errs)[0] != seq![success_line()][0]);
    }
}

/// Newline positions lie in the text, in increasing order.
pub proof fn lemma_newlines_bounds(s: Seq<char>)
    ensures
        forall|k: int| 0 <= k < newlines(s).len() ==> 0 <= #[trigger] newlines(s)[k] < s.len(),
        forall|j: int, k: int|
            0 <= j < k < newlines(s).len() ==> #[trigger] newlines(s)[j] < #[trigger] newlines(s)[k],
        forall|k: int| 0 <= k < newlines(s).len() ==> s[#[trigger] newlines(s)[k]] == '\n',
    decreases s.len(),
{
    if s.len() > 0 {
        let p = s.drop_last();
        lemma_newlines_bounds(p);
        assert forall|k: int| 0 <= k < newlines(p).len() implies s[#[trigger] newlines(p)[k]] == '\n' by {
            assert(s[newlines(p)[k]] == p[newlines(p)[k]]);
        }
    }
}

} // verus!
