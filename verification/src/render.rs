//! Plain-text rendering of diagnostics against their source:
//!
//! ```text
//! error[E0001]: unexpected token
//!  --> main.ae:2:12
//!   |
//! 2 | return 1 + ;
//!   |            ^ expected an expression
//!   |
//!   = note: a further explanation
//! ```
//!
//! A diagnostic with no labels renders just its header and its notes.

use vstd::prelude::*;
use crate::diagnostics::{
    find_primary, first_primary_from, labels_view, primary_index, severity_word, Diagnostic,
    DiagnosticV, Label, LabelStyle, LabelV,
};
use crate::source::{line_col_of, line_text_of, LineCol, SourceFile, SourceMap};
use crate::text::{decimal, push_u64};

verus! {

// ---------------------------------------------------------------------------
// The rendering, stated over the views.

/// `n` spaces.
pub open spec fn spaces(n: int) -> Seq<char> {
    Seq::new(if n < 0 { 0 } else { n as nat }, |i: int| ' ')
}

/// `s` right-aligned in a field of width `w`.
pub open spec fn pad_left(s: Seq<char>, w: int) -> Seq<char> {
    spaces(w - s.len()) + s
}

/// The file a label points into.
pub open spec fn label_file(files: Seq<SourceFile>, l: LabelV) -> SourceFile {
    files[l.span.file.spec_index() as int]
}

/// The line and column of a position in a file.
pub open spec fn pos_lc(f: SourceFile, pos: u32) -> LineCol {
    line_col_of(f.bytes(), f.starts(), pos as int)
}

/// The largest line number the labels start on (0 without labels).
pub open spec fn max_line(files: Seq<SourceFile>, ls: Seq<LabelV>) -> int
    decreases ls.len(),
{
    if ls.len() == 0 {
        0
    } else {
        let m = max_line(files, ls.drop_last());
        let l = pos_lc(label_file(files, ls.last()), ls.last().span.lo.0).line as int;
        if l > m {
            l
        } else {
            m
        }
    }
}

/// The width of the line-number gutter: the digits of the largest line
/// number, or 1 without labels.
pub open spec fn gutter(files: Seq<SourceFile>, ls: Seq<LabelV>) -> int {
    if ls.len() == 0 {
        1
    } else {
        decimal(max_line(files, ls) as nat).len() as int
    }
}

/// The empty gutter line, `  |`.
pub open spec fn blank(g: int) -> Seq<char> {
    spaces(g) + " |"@
}

/// The header line: severity, optional code, and message.
pub open spec fn header(d: DiagnosticV) -> Seq<char> {
    severity_word(d.severity) + match d.code {
        Some(c) => "["@ + c + "]"@,
        None => seq![],
    } + ": "@ + d.message
}

/// The location line, taken from the primary label (or the first label).
pub open spec fn location(files: Seq<SourceFile>, d: DiagnosticV, g: int) -> Seq<char> {
    match primary_index(d.labels) {
        Some(i) => {
            let l = d.labels[i];
            let f = label_file(files, l);
            let lc = pos_lc(f, l.span.lo.0);
            "\n"@ + spaces(g) + "--> "@ + f.spec_name() + ":"@ + decimal(lc.line as nat) + ":"@
                + decimal(lc.col as nat)
        },
        None => seq![],
    }
}

/// The number of carets under a label starting at `st` and ending at `en`
/// on a source line of `len` characters: the span's width on its first
/// line, at least one.
pub open spec fn underline_len(st: LineCol, en: LineCol, len: int) -> int {
    let w = if en.line == st.line {
        en.col - st.col
    } else {
        len - (st.col - 1)
    };
    if w < 1 {
        1
    } else {
        w
    }
}

/// The padding before the carets: the source line's first characters, with
/// tabs kept and everything else turned into spaces.
pub open spec fn caret_pad(src: Seq<char>, n: int) -> Seq<char> {
    src.take(if n < src.len() { n } else { src.len() as int }).map_values(
        |c: char| if c == '\t' { '\t' } else { ' ' },
    )
}

/// The source line of a label, numbered.
pub open spec fn label_source(f: SourceFile, st: LineCol, g: int) -> Seq<char> {
    "\n"@ + pad_left(decimal(st.line as nat), g) + " | "@ + line_text_of(f.bytes(), f.starts(), st.line - 1)
}

/// The underline of a label: the pad, the markers and the label's message.
pub open spec fn label_underline(src: Seq<char>, st: LineCol, en: LineCol, l: LabelV, g: int) -> Seq<
    char,
> {
    let marker = match l.style {
        LabelStyle::Primary => '^',
        LabelStyle::Secondary => '-',
    };
    "\n"@ + blank(g) + " "@ + caret_pad(src, st.col - 1) + Seq::new(
        underline_len(st, en, src.len() as int) as nat,
        |i: int| marker,
    ) + match l.message {
        Some(m) => " "@ + m,
        None => seq![],
    }
}

/// The two lines of one label: the source line and the underline.
pub open spec fn label_text(files: Seq<SourceFile>, l: LabelV, g: int) -> Seq<char> {
    let f = label_file(files, l);
    let st = pos_lc(f, l.span.lo.0);
    let en = pos_lc(f, l.span.hi.0);
    label_source(f, st, g) + label_underline(
        line_text_of(f.bytes(), f.starts(), st.line - 1),
        st,
        en,
        l,
        g,
    )
}

/// The lines of the first `n` labels.
pub open spec fn labels_text(files: Seq<SourceFile>, ls: Seq<LabelV>, g: int, n: int) -> Seq<char>
    decreases n,
{
    if n <= 0 {
        seq![]
    } else {
        labels_text(files, ls, g, n - 1) + label_text(files, ls[n - 1], g)
    }
}

/// The lines of the first `n` notes.
pub open spec fn notes_text(notes: Seq<Seq<char>>, g: int, n: int) -> Seq<char>
    decreases n,
{
    if n <= 0 {
        seq![]
    } else {
        notes_text(notes, g, n - 1) + "\n"@ + spaces(g) + " = note: "@ + notes[n - 1]
    }
}

/// The whole rendering of a diagnostic.
pub open spec fn render_s(files: Seq<SourceFile>, d: DiagnosticV) -> Seq<char> {
    let g = gutter(files, d.labels);
    header(d) + location(files, d, g) + (if d.labels.len() > 0 {
        "\n"@ + blank(g) + labels_text(files, d.labels, g, d.labels.len() as int)
    } else {
        seq![]
    }) + (if d.notes.len() > 0 {
        (if d.labels.len() > 0 {
            "\n"@ + blank(g)
        } else {
            seq![]
        }) + notes_text(d.notes, g, d.notes.len() as int)
    } else {
        seq![]
    })
}

/// Every label points into a file of the map.
pub open spec fn labels_in(files: Seq<SourceFile>, ls: Seq<LabelV>) -> bool {
    forall|i: int| 0 <= i < ls.len() ==> (#[trigger] ls[i]).span.file.spec_index() < files.len()
}

/// A diagnostic without labels renders as its header line followed by its
/// notes.
pub proof fn lemma_render_without_labels(files: Seq<SourceFile>, d: DiagnosticV)
    requires
        d.labels.len() == 0,
    ensures
        render_s(files, d) == header(d) + notes_text(d.notes, 1, d.notes.len() as int),
{
    assert(location(files, d, 1) =~= Seq::<char>::empty());
    if d.notes.len() > 0 {
        assert(render_s(files, d) =~= header(d) + notes_text(d.notes, 1, d.notes.len() as int));
    } else {
        assert(notes_text(d.notes, 1, 0) =~= Seq::<char>::empty());
        assert(render_s(files, d) =~= header(d));
    }
}

// ---------------------------------------------------------------------------
// The width of the gutter.

/// Ten to the power `n`.
pub open spec fn pow10(n: nat) -> nat
    decreases n,
{
    if n == 0 {
        1
    } else {
        10 * pow10((n - 1) as nat)
    }
}

/// The line a label starts on.
pub open spec fn start_line(files: Seq<SourceFile>, l: LabelV) -> int {
    pos_lc(label_file(files, l), l.span.lo.0).line as int
}

proof fn lemma_decimal_len(n: nat)
    ensures
        decimal(n).len() >= 1,
        n < pow10(decimal(n).len()),
        decimal(n).len() == 1 || pow10((decimal(n).len() - 1) as nat) <= n,
    decreases n,
{
    if n >= 10 {
        lemma_decimal_len(n / 10);
        let d = decimal(n / 10).len();
        let q = n / 10;
        assert(decimal(n).len() == d + 1);
        let p = pow10(d);
        assert(pow10(d + 1) == 10 * p);
        assert(n < 10 * p) by (nonlinear_arith)
            requires
                q < p,
                q == n / 10,
        ;
        if d == 1 {
            assert(pow10(0) == 1);
            assert(pow10(1) == 10);
        } else {
            let p1 = pow10((d - 1) as nat);
            assert(p == 10 * p1);
            assert(10 * p1 <= n) by (nonlinear_arith)
                requires
                    p1 <= q,
                    q == n / 10,
            ;
        }
    } else {
        assert(pow10(0) == 1);
        assert(pow10(1) == 10);
    }
}

proof fn lemma_max_line(files: Seq<SourceFile>, ls: Seq<LabelV>)
    requires
        ls.len() > 0,
    ensures
        exists|k: int| 0 <= k < ls.len() && #[trigger] start_line(files, ls[k]) == max_line(files, ls),
        forall|j: int| 0 <= j < ls.len() ==> #[trigger] start_line(files, ls[j]) <= max_line(files, ls),
    decreases ls.len(),
{
    let n = ls.len();
    if n > 1 {
        lemma_max_line(files, ls.drop_last());
        let k = choose|k: int|
            0 <= k < n - 1 && #[trigger] start_line(files, ls.drop_last()[k]) == max_line(
                files,
                ls.drop_last(),
            );
        assert(ls.drop_last()[k] == ls[k]);
        assert forall|j: int| 0 <= j < n implies #[trigger] start_line(files, ls[j]) <= max_line(
            files,
            ls,
        ) by {
            if j < n - 1 {
                assert(ls.drop_last()[j] == ls[j]);
            }
        }
        if start_line(files, ls[n - 1]) > max_line(files, ls.drop_last()) {
            assert(start_line(files, ls[n - 1]) == max_line(files, ls));
        } else {
            assert(start_line(files, ls[k]) == max_line(files, ls));
        }
    } else {
        assert(max_line(files, ls.drop_last()) == 0);
        assert(start_line(files, ls[0]) == max_line(files, ls));
    }
}

/// The gutter of a diagnostic with labels is as wide as the decimal digits
/// of the largest line a label starts on: some label starts on a line `L`
/// that no label starts after, and the width `g` has `L < 10^g` and, past
/// one digit, `10^(g-1) <= L`.
pub proof fn lemma_gutter_width(files: Seq<SourceFile>, ls: Seq<LabelV>)
    requires
        ls.len() > 0,
    ensures
        gutter(files, ls) >= 1,
        exists|k: int|
            0 <= k < ls.len() && #[trigger] start_line(files, ls[k]) < pow10(gutter(files, ls) as nat)
                && (gutter(files, ls) == 1 || pow10((gutter(files, ls) - 1) as nat) <= start_line(
                files,
                ls[k],
            )) && forall|j: int| 0 <= j < ls.len() ==> start_line(files, ls[j]) <= start_line(files, ls[k]),
{
    lemma_max_line(files, ls);
    let m = max_line(files, ls);
    let k = choose|k: int| 0 <= k < ls.len() && #[trigger] start_line(files, ls[k]) == m;
    assert(m >= 0);
    lemma_decimal_len(m as nat);
    assert(forall|j: int| 0 <= j < ls.len() ==> start_line(files, ls[j]) <= start_line(files, ls[k]));
}

// ---------------------------------------------------------------------------
// The renderer.

/// Append `n` copies of the one-character string `unit`.
fn push_repeat(out: &mut String, unit: &str, n: usize)
    requires
        unit@.len() == 1,
    ensures
        final(out)@ == old(out)@ + Seq::new(n as nat, |i: int| unit@[0]),
{
    let mut i: usize = 0;
    while i < n
        invariant
            unit@.len() == 1,
            i <= n,
            out@ == old(out)@ + Seq::new(i as nat, |j: int| unit@[0]),
        decreases n - i,
    {
        out.append(unit);
        assert(out@ =~= old(out)@ + Seq::new((i + 1) as nat, |j: int| unit@[0]));
        i = i + 1;
    }
}

/// Append `n` spaces.
fn push_spaces(out: &mut String, n: usize)
    ensures
        final(out)@ == old(out)@ + spaces(n as int),
{
    proof {
        reveal_strlit(" ");
    }
    push_repeat(out, " ", n);
    assert(final(out)@ =~= old(out)@ + spaces(n as int));
}

/// The decimal text of a number.
fn decimal_string(n: u32) -> (r: String)
    ensures
        r@ == decimal(n as nat),
{
    let mut s = String::new();
    push_u64(&mut s, n as u64);
    assert(s@ =~= decimal(n as nat));
    s
}

/// The width of the line-number gutter.
fn gutter_width(d: &Diagnostic, sources: &SourceMap) -> (r: usize)
    requires
        labels_in(sources@, d@.labels),
    ensures
        r == gutter(sources@, d@.labels),
{
    let labels = &d.labels;
    if labels.len() == 0 {
        return 1;
    }
    let mut m: u32 = 0;
    let mut i: usize = 0;
    while i < labels.len()
        invariant
            i <= labels@.len(),
            d@.labels == labels_view(labels@),
            labels_in(sources@, d@.labels),
            m == max_line(sources@, d@.labels.take(i as int)),
        decreases labels@.len() - i,
    {
        let l = &labels[i];
        assert(d@.labels[i as int] == l@);
        let f = sources.file(l.span.file());
        let lc = f.line_col(l.span.lo());
        proof {
            let t = d@.labels.take(i + 1);
            assert(t.drop_last() =~= d@.labels.take(i as int));
        }
        if lc.line > m {
            m = lc.line;
        }
        i = i + 1;
    }
    assert(d@.labels.take(i as int) =~= d@.labels);
    decimal_string(m).unicode_len()
}

/// Append the numbered source line of a label.
fn push_source(out: &mut String, f: &SourceFile, st: LineCol, src: &str, g: usize)
    requires
        1 <= st.line <= f.starts().len(),
        src@ == line_text_of(f.bytes(), f.starts(), st.line - 1),
    ensures
        final(out)@ == old(out)@ + label_source(*f, st, g as int),
{
    out.append("\n");
    let num = decimal_string(st.line);
    let nl = num.unicode_len();
    if nl < g {
        push_spaces(out, g - nl);
    }
    out.append(num.as_str());
    out.append(" | ");
    out.append(src);
    assert(final(out)@ =~= old(out)@ + label_source(*f, st, g as int));
}

/// Append the pad before the markers.
fn push_pad(out: &mut String, src: &str, n: usize)
    requires
        n <= src@.len(),
    ensures
        final(out)@ == old(out)@ + src@.take(n as int).map_values(
            |c: char| if c == '\t' { '\t' } else { ' ' },
        ),
{
    let mut i: usize = 0;
    while i < n
        invariant
            i <= n <= src@.len(),
            out@ == old(out)@ + src@.take(i as int).map_values(
                |c: char| if c == '\t' { '\t' } else { ' ' },
            ),
        decreases n - i,
    {
        let c = src.get_char(i);
        let ghost before = out@;
        if c == '\t' {
            proof {
                reveal_strlit("\t");
            }
            out.append("\t");
        } else {
            proof {
                reveal_strlit(" ");
            }
            out.append(" ");
        }
        assert(src@.take(i + 1) =~= src@.take(i as int).push(c));
        assert(out@ =~= old(out)@ + src@.take(i + 1).map_values(
            |c: char| if c == '\t' { '\t' } else { ' ' },
        ));
        i = i + 1;
    }
}

/// The number of markers under a label.
fn caret_count(st: LineCol, en: LineCol, len: usize) -> (w: usize)
    requires
        1 <= st.col,
    ensures
        w == underline_len(st, en, len as int),
{
    let c1 = (st.col - 1) as usize;
    if en.line == st.line {
        if en.col > st.col {
            (en.col - st.col) as usize
        } else {
            1
        }
    } else if len > c1 && len - c1 >= 1 {
        len - c1
    } else {
        1
    }
}

/// The marker of a label's style.
pub open spec fn marker_of(style: LabelStyle) -> char {
    match style {
        LabelStyle::Primary => '^',
        LabelStyle::Secondary => '-',
    }
}

/// Append `w` markers of a label's style.
fn push_markers(out: &mut String, style: LabelStyle, w: usize)
    ensures
        final(out)@ == old(out)@ + Seq::new(w as nat, |i: int| marker_of(style)),
{
    let marker = match style {
        LabelStyle::Primary => "^",
        LabelStyle::Secondary => "-",
    };
    proof {
        reveal_strlit("^");
        reveal_strlit("-");
    }
    push_repeat(out, marker, w);
    assert(Seq::new(w as nat, |i: int| marker@[0]) =~= Seq::new(w as nat, |i: int| marker_of(style)));
}

/// Append the underline of a label.
fn push_underline(out: &mut String, src: &str, st: LineCol, en: LineCol, l: &Label, g: usize)
    requires
        1 <= st.col,
    ensures
        final(out)@ == old(out)@ + label_underline(src@, st, en, l@, g as int),
{
    out.append("\n");
    push_spaces(out, g);
    out.append(" |");
    out.append(" ");
    let ghost s1 = out@;
    assert(s1 =~= old(out)@ + "\n"@ + blank(g as int) + " "@);
    let len = src.unicode_len();
    let c1 = (st.col - 1) as usize;
    let n = if c1 < len {
        c1
    } else {
        len
    };
    push_pad(out, src, n);
    let ghost s2 = out@;
    assert(s2 == s1 + caret_pad(src@, st.col - 1));
    let w = caret_count(st, en, len);
    push_markers(out, l.style, w);
    let ghost s3 = out@;
    match &l.message {
        Some(m) => {
            out.append(" ");
            out.append(m.as_str());
        },
        None => {},
    }
    let ghost msg = match l@.message {
        Some(m) => " "@ + m,
        None => Seq::<char>::empty(),
    };
    assert(final(out)@ =~= s3 + msg);
    let ghost marks = Seq::new(
        underline_len(st, en, src@.len() as int) as nat,
        |i: int| marker_of(l@.style),
    );
    assert(s3 == s2 + marks);
    assert(label_underline(src@, st, en, l@, g as int) =~= "\n"@ + blank(g as int) + " "@
        + caret_pad(src@, st.col - 1) + marks + msg);
}

/// Append the two lines of one label.
fn push_label(out: &mut String, l: &Label, sources: &SourceMap, g: usize)
    requires
        l@.span.file.spec_index() < sources@.len(),
    ensures
        final(out)@ == old(out)@ + label_text(sources@, l@, g as int),
{
    let f = sources.file(l.span.file());
    let st = f.line_col(l.span.lo());
    let en = f.line_col(l.span.hi());
    let src = f.line_text((st.line - 1) as usize);
    push_source(out, f, st, src, g);
    push_underline(out, src, st, en, l, g);
    assert(final(out)@ =~= old(out)@ + label_text(sources@, l@, g as int));
}

/// The first primary label at or after `s` lies in the label list.
proof fn lemma_first_primary_in(ls: Seq<LabelV>, s: int)
    requires
        0 <= s,
    ensures
        match first_primary_from(ls, s) {
            Some(i) => s <= i < ls.len(),
            None => true,
        },
    decreases ls.len() - s,
{
    if s < ls.len() {
        lemma_first_primary_in(ls, s + 1);
    }
}

/// Append the header and location lines.
fn push_head(out: &mut String, d: &Diagnostic, sources: &SourceMap, g: usize)
    requires
        labels_in(sources@, d@.labels),
    ensures
        final(out)@ == old(out)@ + header(d@) + location(sources@, d@, g as int),
{
    out.append(d.severity.as_str());
    match &d.code {
        Some(c) => {
            out.append("[");
            out.append(c.as_str());
            out.append("]");
        },
        None => {},
    }
    out.append(": ");
    out.append(d.message.as_str());
    let ghost h = out@;
    assert(h =~= old(out)@ + header(d@));
    let labels = d.labels.as_slice();
    proof {
        lemma_first_primary_in(labels_view(labels@), 0);
    }
    let p = match find_primary(labels, 0) {
        Some(i) => Some(i),
        None => if labels.len() > 0 {
            Some(0)
        } else {
            None
        },
    };
    match p {
        Some(i) => {
            let l = &labels[i];
            assert(d@.labels[i as int] == l@);
            let f = sources.file(l.span.file());
            let lc = f.line_col(l.span.lo());
            out.append("\n");
            push_spaces(out, g);
            out.append("--> ");
            out.append(f.name());
            out.append(":");
            let a = decimal_string(lc.line);
            out.append(a.as_str());
            out.append(":");
            let b = decimal_string(lc.col);
            out.append(b.as_str());
        },
        None => {},
    }
    assert(final(out)@ =~= h + location(sources@, d@, g as int));
}

/// Append the label lines, after an empty gutter line.
fn push_labels(out: &mut String, d: &Diagnostic, sources: &SourceMap, g: usize)
    requires
        labels_in(sources@, d@.labels),
    ensures
        final(out)@ == old(out)@ + (if d@.labels.len() > 0 {
            "\n"@ + blank(g as int) + labels_text(sources@, d@.labels, g as int, d@.labels.len() as int)
        } else {
            seq![]
        }),
{
    let labels = d.labels.as_slice();
    if labels.len() > 0 {
        out.append("\n");
        push_spaces(out, g);
        out.append(" |");
        let ghost base = out@;
        let mut i: usize = 0;
        while i < labels.len()
            invariant
                i <= labels@.len(),
                d@.labels == labels_view(labels@),
                labels_in(sources@, d@.labels),
                out@ == base + labels_text(sources@, d@.labels, g as int, i as int),
            decreases labels@.len() - i,
        {
            assert(d@.labels[i as int] == labels@[i as int]@);
            push_label(out, &labels[i], sources, g);
            i = i + 1;
        }
        assert(final(out)@ =~= old(out)@ + "\n"@ + blank(g as int) + labels_text(
            sources@,
            d@.labels,
            g as int,
            d@.labels.len() as int,
        ));
    } else {
        assert(final(out)@ =~= old(out)@ + Seq::<char>::empty());
    }
}

/// Append the notes, after an empty gutter line when there were labels.
fn push_notes(out: &mut String, d: &Diagnostic, g: usize)
    ensures
        final(out)@ == old(out)@ + (if d@.notes.len() > 0 {
            (if d@.labels.len() > 0 {
                "\n"@ + blank(g as int)
            } else {
                seq![]
            }) + notes_text(d@.notes, g as int, d@.notes.len() as int)
        } else {
            seq![]
        }),
{
    if d.notes.len() > 0 {
        if d.labels.len() > 0 {
            out.append("\n");
            push_spaces(out, g);
            out.append(" |");
        }
        let ghost base = out@;
        let mut k: usize = 0;
        while k < d.notes.len()
            invariant
                k <= d.notes@.len(),
                d@.notes == crate::diagnostics::strings_view(d.notes@),
                out@ == base + notes_text(d@.notes, g as int, k as int),
            decreases d.notes@.len() - k,
        {
            out.append("\n");
            push_spaces(out, g);
            out.append(" = note: ");
            out.append(d.notes[k].as_str());
            assert(d@.notes[k as int] == d.notes@[k as int]@);
            assert(out@ =~= base + notes_text(d@.notes, g as int, k + 1));
            k = k + 1;
        }
        assert(final(out)@ =~= old(out)@ + (if d@.labels.len() > 0 {
            "\n"@ + blank(g as int)
        } else {
            seq![]
        }) + notes_text(d@.notes, g as int, d@.notes.len() as int));
    } else {
        assert(final(out)@ =~= old(out)@ + Seq::<char>::empty());
    }
}

/// Render `diagnostic` into a multi-line, source-annotated string.
pub fn render(diagnostic: &Diagnostic, sources: &SourceMap) -> (r: String)
    requires
        labels_in(sources@, diagnostic@.labels),
    ensures
        r@ == render_s(sources@, diagnostic@),
{
    let g = gutter_width(diagnostic, sources);
    let mut out = String::new();
    push_head(&mut out, diagnostic, sources, g);
    push_labels(&mut out, diagnostic, sources, g);
    push_notes(&mut out, diagnostic, g);
    assert(out@ =~= render_s(sources@, diagnostic@));
    out
}

} // verus!
