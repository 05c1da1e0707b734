//! Source management: byte positions, spans, source files with their line
//! tables, and resolution of byte positions to 1-based line/column locations.

use vstd::prelude::*;
use vstd::utf8::*;
use vstd::string::*;
use crate::text::{byte_slice, decode_range, lemma_after_ascii_boundary, lemma_ascii_boundary, lemma_boundary_in_prefix};

verus! {

broadcast use vstd::utf8::encode_utf8_valid_utf8, vstd::utf8::encode_utf8_decode_utf8;

/// A zero-based byte offset within a single source file.
#[derive(Clone, Copy, PartialEq, Eq, PartialOrd, Ord, Hash, Debug)]
pub struct BytePos(pub u32);

impl BytePos {
    /// The offset as a `usize`, for slicing into source strings.
    pub fn to_usize(self) -> (r: usize)
        ensures
            r == self.0,
    {
        self.0 as usize
    }

    /// Construct a `BytePos` from a `usize`, truncating to 32 bits.
    pub fn from_usize(offset: usize) -> (r: BytePos)
        ensures
            r.0 == offset as u32,
            offset <= u32::MAX ==> r.0 == offset,
    {
        BytePos(offset as u32)
    }
}

/// Identifies a source file within a [`SourceMap`].
#[derive(Clone, Copy, PartialEq, Eq, PartialOrd, Ord, Hash, Debug)]
pub struct FileId(u32);

impl FileId {
    /// The index this identifier refers to, as a mathematical value.
    pub closed spec fn spec_index(self) -> nat {
        self.0 as nat
    }

    /// Create a `FileId` for the given index.
    pub fn from_index(index: usize) -> (r: FileId)
        requires
            index <= u32::MAX,
        ensures
            r.spec_index() == index,
    {
        FileId(index as u32)
    }

    /// The index this `FileId` refers to within its owning `SourceMap`.
    pub fn index(self) -> (r: usize)
        ensures
            r == self.spec_index(),
    {
        self.0 as usize
    }

    /// Two identifiers are equal exactly when their indices are.
    pub proof fn lemma_eq_iff_index(a: FileId, b: FileId)
        ensures
            (a == b) <==> (a.spec_index() == b.spec_index()),
    {
    }
}

/// The half-open byte range `[lo, hi)` within a single file.
#[derive(Clone, Copy, PartialEq, Eq, Hash, Debug)]
pub struct Span {
    /// The file this span points into.
    pub file: FileId,
    /// The inclusive start.
    pub lo: BytePos,
    /// The exclusive end.
    pub hi: BytePos,
}

impl Span {
    /// Create a span covering `[lo, hi)` in `file`.
    pub fn new(file: FileId, lo: BytePos, hi: BytePos) -> (r: Span)
        requires
            lo.0 <= hi.0,
        ensures
            r == (Span { file, lo, hi }),
    {
        Span { file, lo, hi }
    }

    /// The file this span points into.
    pub fn file(self) -> (r: FileId)
        ensures
            r == self.file,
    {
        self.file
    }

    /// The inclusive start of the span.
    pub fn lo(self) -> (r: BytePos)
        ensures
            r == self.lo,
    {
        self.lo
    }

    /// The exclusive end of the span.
    pub fn hi(self) -> (r: BytePos)
        ensures
            r == self.hi,
    {
        self.hi
    }

    /// The length of the span in bytes.
    pub fn len(self) -> (r: u32)
        requires
            self.lo.0 <= self.hi.0,
        ensures
            r == self.hi.0 - self.lo.0,
    {
        self.hi.0 - self.lo.0
    }

    /// Whether the span is empty (`lo == hi`).
    pub fn is_empty(self) -> (r: bool)
        ensures
            r == (self.lo.0 == self.hi.0),
    {
        self.lo.0 == self.hi.0
    }

    /// The smallest span covering both `self` and `other`.
    pub fn to(self, other: Span) -> (r: Span)
        requires
            self.file == other.file,
        ensures
            r == span_merge(self, other),
    {
        let lo = if self.lo.0 <= other.lo.0 { self.lo } else { other.lo };
        let hi = if self.hi.0 >= other.hi.0 { self.hi } else { other.hi };
        Span { file: self.file, lo, hi }
    }
}

/// The span covering both `a` and `b` (the file of `a` is kept).
pub open spec fn span_merge(a: Span, b: Span) -> Span {
    Span {
        file: a.file,
        lo: if a.lo.0 <= b.lo.0 { a.lo } else { b.lo },
        hi: if a.hi.0 >= b.hi.0 { a.hi } else { b.hi },
    }
}

/// Merging two spans of one file gives the same span in either order: it
/// lies in that file, starts at the smaller start and ends at the larger end,
/// so it covers both.
pub proof fn lemma_span_merge(a: Span, b: Span)
    requires
        a.file == b.file,
    ensures
        span_merge(a, b) == span_merge(b, a),
        span_merge(a, b).file == a.file,
        span_merge(a, b).lo.0 == if a.lo.0 <= b.lo.0 { a.lo.0 } else { b.lo.0 },
        span_merge(a, b).hi.0 == if a.hi.0 >= b.hi.0 { a.hi.0 } else { b.hi.0 },
        span_merge(a, b).lo.0 <= a.lo.0 && span_merge(a, b).lo.0 <= b.lo.0,
        span_merge(a, b).hi.0 >= a.hi.0 && span_merge(a, b).hi.0 >= b.hi.0,
{
}

/// A resolved location: a 1-based line and a 1-based column counted in characters.
#[derive(Clone, Copy, PartialEq, Eq, PartialOrd, Ord, Hash, Debug)]
pub struct LineCol {
    /// 1-based line number.
    pub line: u32,
    /// 1-based column, counted in characters.
    pub col: u32,
}

/// The byte offsets at which the lines of `bytes[..n]` begin: `0`, then the
/// offset after every `\n`.
pub open spec fn line_starts_upto(bytes: Seq<u8>, n: int) -> Seq<u32>
    decreases n,
{
    if n <= 0 {
        seq![0u32]
    } else {
        let prev = line_starts_upto(bytes, n - 1);
        if bytes[n - 1] == 10u8 {
            prev.push(n as u32)
        } else {
            prev
        }
    }
}

/// The line table of a whole file.
pub open spec fn line_starts_of(bytes: Seq<u8>) -> Seq<u32> {
    line_starts_upto(bytes, bytes.len() as int)
}

/// The facts about a line table that every lookup relies on.
pub open spec fn line_table_ok(bytes: Seq<u8>, starts: Seq<u32>) -> bool {
    &&& starts.len() >= 1
    &&& starts[0] == 0
    &&& forall|i: int, j: int| 0 <= i < j < starts.len() ==> starts[i] < starts[j]
    &&& forall|i: int| 0 <= i < starts.len() ==> starts[i] <= bytes.len()
    &&& forall|i: int| 1 <= i < starts.len() ==> bytes[starts[i] - 1] == 10u8
}

proof fn lemma_line_starts_upto(bytes: Seq<u8>, n: int)
    requires
        0 <= n <= bytes.len(),
        bytes.len() < u32::MAX,
    ensures
        line_table_ok(bytes, line_starts_upto(bytes, n)),
        forall|i: int| 0 <= i < line_starts_upto(bytes, n).len()
            ==> line_starts_upto(bytes, n)[i] <= n,
        line_starts_upto(bytes, n).len() <= n + 1,
    decreases n,
{
    if n > 0 {
        lemma_line_starts_upto(bytes, n - 1);
    }
}

/// The 0-based line whose start is the last one at or before `pos`.
pub open spec fn line_of(starts: Seq<u32>, pos: int) -> int {
    choose|k: int| is_line_of(starts, pos, k)
}

/// Line `k` is the one whose range contains `pos`.
pub open spec fn is_line_of(starts: Seq<u32>, pos: int, k: int) -> bool {
    0 <= k < starts.len() && starts[k] <= pos && (k + 1 == starts.len() || pos < starts[k + 1])
}

/// `line_of` is determined by the defining property.
pub proof fn lemma_line_of(starts: Seq<u32>, pos: int, k: int)
    requires
        forall|i: int, j: int| 0 <= i < j < starts.len() ==> starts[i] < starts[j],
        0 <= k < starts.len(),
        starts[k] <= pos,
        k + 1 == starts.len() || pos < starts[k + 1],
    ensures
        line_of(starts, pos) == k,
{
    assert(is_line_of(starts, pos, k));
    let c = line_of(starts, pos);
    assert(is_line_of(starts, pos, c));
    if c < k {
        assert(starts[c + 1] <= starts[k]);
    } else if c > k {
        assert(starts[k + 1] <= starts[c]);
    }
}

/// Step back from `e` to the nearest character boundary that is not before `lo`.
pub open spec fn floor_boundary(bytes: Seq<u8>, lo: int, e: int) -> int
    decreases e,
{
    if e <= lo || e <= 0 || is_char_boundary(bytes, e) {
        e
    } else {
        floor_boundary(bytes, lo, e - 1)
    }
}

/// A single source file: its name, contents, and precomputed line table.
#[derive(Debug)]
pub struct SourceFile {
    id: FileId,
    name: String,
    src: String,
    line_starts: Vec<BytePos>,
}

impl SourceFile {
    #[verifier::type_invariant]
    closed spec fn wf(self) -> bool {
        &&& encode_utf8(self.src@).len() < u32::MAX
        &&& self.line_starts@.len() == line_starts_of(encode_utf8(self.src@)).len()
        &&& forall|i: int| 0 <= i < self.line_starts@.len()
            ==> self.line_starts@[i].0 == line_starts_of(encode_utf8(self.src@))[i]
    }

    /// The file's identifier.
    pub closed spec fn spec_id(self) -> FileId {
        self.id
    }

    /// The file's name.
    pub closed spec fn spec_name(self) -> Seq<char> {
        self.name@
    }

    /// The file's text.
    pub closed spec fn text(self) -> Seq<char> {
        self.src@
    }

    /// The file's UTF-8 bytes.
    pub open spec fn bytes(self) -> Seq<u8> {
        encode_utf8(self.text())
    }

    /// The file's line table.
    pub open spec fn starts(self) -> Seq<u32> {
        line_starts_of(self.bytes())
    }

    /// The size limit every source file satisfies.
    pub open spec fn well_formed(self) -> bool {
        self.bytes().len() < u32::MAX
    }

    /// Facts that follow from a file being well formed.
    pub proof fn lemma_wf(self)
        requires
            self.well_formed(),
        ensures
            line_table_ok(self.bytes(), self.starts()),
            valid_utf8(self.bytes()),
    {
        lemma_line_starts_upto(self.bytes(), self.bytes().len() as int);
    }

    /// This file's identifier within its owning [`SourceMap`].
    pub fn id(&self) -> (r: FileId)
        ensures
            r == self.spec_id(),
    {
        self.id
    }

    /// The file's name.
    pub fn name(&self) -> (r: &str)
        ensures
            r@ == self.spec_name(),
    {
        self.name.as_str()
    }

    /// The full source text.
    pub fn source(&self) -> (r: &str)
        ensures
            r@ == self.text(),
            self.well_formed(),
    {
        proof { use_type_invariant(self); }
        self.src.as_str()
    }

    /// The length of the file in bytes.
    pub fn len_bytes(&self) -> (r: u32)
        ensures
            r == self.bytes().len(),
    {
        proof { use_type_invariant(self); }
        self.src.as_str().len() as u32
    }

    /// The number of lines in the file (a trailing newline starts a final empty line).
    pub fn line_count(&self) -> (r: u32)
        ensures
            r == self.starts().len(),
    {
        proof {
            use_type_invariant(self);
            lemma_line_starts_upto(self.bytes(), self.bytes().len() as int);
        }
        self.line_starts.len() as u32
    }

    /// The 0-based index of the line containing `pos`.
    fn line_index(&self, pos: BytePos) -> (r: usize)
        ensures
            r == line_of(self.starts(), pos.0 as int),
            is_line_of(self.starts(), pos.0 as int, r as int),
    {
        proof {
            use_type_invariant(self);
            self.lemma_wf();
        }
        let ghost starts = self.starts();
        // Binary search for the last line start at or before `pos`.
        let mut lo: usize = 0;
        let mut hi: usize = self.line_starts.len();
        while lo + 1 < hi
            invariant
                self.line_starts@.len() == starts.len(),
                forall|i: int| 0 <= i < starts.len() ==> self.line_starts@[i].0 == starts[i],
                forall|i: int, j: int| 0 <= i < j < starts.len() ==> starts[i] < starts[j],
                starts[0] == 0,
                0 <= lo < hi <= starts.len(),
                starts[lo as int] <= pos.0,
                hi == starts.len() || pos.0 < starts[hi as int],
            decreases hi - lo,
        {
            let mid = lo + (hi - lo) / 2;
            if self.line_starts[mid].0 <= pos.0 {
                lo = mid;
            } else {
                hi = mid;
            }
        }
        proof {
            lemma_line_of(starts, pos.0 as int, lo as int);
        }
        lo
    }

    /// The text of the given 0-based line, without its `\n` or `\r\n` terminator.
    pub fn line_text(&self, line_index: usize) -> (r: &str)
        requires
            line_index < self.starts().len(),
        ensures
            r@ == line_text_of(self.bytes(), self.starts(), line_index as int),
    {
        proof {
            use_type_invariant(self);
            self.lemma_wf();
        }
        let bytes = self.src.as_str().as_bytes();
        assert(self.line_starts@.len() == self.starts().len());
        let lo = self.line_starts[line_index].0 as usize;
        proof {
            if line_index + 1 < self.starts().len() {
                assert(self.starts()[line_index as int] < self.starts()[line_index + 1]);
            }
        }
        let mut hi: usize = if line_index < self.line_starts.len() - 1 {
            (self.line_starts[line_index + 1].0 - 1) as usize
        } else {
            bytes.len()
        };
        proof {
            lemma_line_start_boundary(self.bytes(), self.starts(), line_index as int);
            lemma_ascii_boundary(self.bytes(), hi as int);
        }
        if hi > lo && bytes[hi - 1] == 13u8 {
            hi = hi - 1;
            proof { lemma_ascii_boundary(self.bytes(), hi as int); }
        }
        byte_slice(self.src.as_str(), lo, hi)
    }

    /// Resolve a byte position to a 1-based line and column. Positions past the
    /// end are clamped to the end; positions inside a character count as that
    /// character.
    pub fn line_col(&self, pos: BytePos) -> (r: LineCol)
        ensures
            r == line_col_of(self.bytes(), self.starts(), pos.0 as int),
            1 <= r.line <= self.starts().len(),
            1 <= r.col,
    {
        proof {
            use_type_invariant(self);
            self.lemma_wf();
        }
        let line_index = self.line_index(pos);
        let line_start = self.line_starts[line_index].0 as usize;
        let src = self.src.as_str();
        let len = src.len();
        let mut end: usize = if pos.0 as usize <= len { pos.0 as usize } else { len };
        let ghost bytes = self.bytes();
        proof {
            lemma_line_start_boundary(self.bytes(), self.starts(), line_index as int);
            assert(line_start <= pos.0);
        }
        while end > line_start && !src.is_char_boundary(end)
            invariant
                line_start <= end <= bytes.len(),
                bytes == src.spec_bytes(),
                floor_boundary(bytes, line_start as int, end as int)
                    == floor_boundary(bytes, line_start as int, min_int(pos.0 as int, bytes.len() as int)),
            decreases end,
        {
            end = end - 1;
        }
        let text = byte_slice(src, line_start, end);
        let count = text.unicode_len();
        proof {
            lemma_decode_len_le(bytes, line_start as int, end as int);
            assert(self.starts().len() <= bytes.len() + 1) by {
                lemma_line_starts_upto(bytes, bytes.len() as int);
            }
        }
        LineCol { line: line_index as u32 + 1, col: count as u32 + 1 }
    }
}

/// Line starts fall on character boundaries.
pub proof fn lemma_line_start_boundary(bytes: Seq<u8>, starts: Seq<u32>, k: int)
    requires
        line_table_ok(bytes, starts),
        valid_utf8(bytes),
        0 <= k < starts.len(),
    ensures
        is_char_boundary(bytes, starts[k] as int),
{
    let s = starts[k] as int;
    if k == 0 {
        is_char_boundary_start_end_of_seq(bytes);
    } else {
        lemma_ascii_boundary(bytes, s - 1);
        lemma_after_ascii_boundary(bytes, s - 1);
    }
}

/// The smaller of two integers.
pub open spec fn min_int(a: int, b: int) -> int {
    if a <= b { a } else { b }
}

/// The text of line `k`, without its terminator.
pub open spec fn line_text_of(bytes: Seq<u8>, starts: Seq<u32>, k: int) -> Seq<char> {
    let lo = starts[k] as int;
    let hi = if k + 1 < starts.len() { starts[k + 1] - 1 } else { bytes.len() as int };
    let hi2 = if hi > lo && bytes[hi - 1] == 13u8 { hi - 1 } else { hi };
    decode_range(bytes, lo, hi2)
}

/// The line and column of byte position `pos`.
pub open spec fn line_col_of(bytes: Seq<u8>, starts: Seq<u32>, pos: int) -> LineCol {
    let k = line_of(starts, pos);
    let ls = starts[k] as int;
    let e = floor_boundary(bytes, ls, min_int(pos, bytes.len() as int));
    LineCol { line: (k + 1) as u32, col: (decode_range(bytes, ls, e).len() + 1) as u32 }
}

/// Decoding never yields more characters than there are bytes.
pub proof fn lemma_decode_len_le(bytes: Seq<u8>, lo: int, hi: int)
    requires
        0 <= lo <= hi <= bytes.len(),
        valid_utf8(bytes),
        is_char_boundary(bytes, lo),
        is_char_boundary(bytes, hi),
    ensures
        decode_range(bytes, lo, hi).len() <= hi - lo,
{
    lemma_boundary_in_prefix(bytes, lo, hi);
    let pre = bytes.subrange(0, hi);
    valid_utf8_split(pre, lo);
    assert(pre.subrange(lo, hi) =~= bytes.subrange(lo, hi));
    let s = bytes.subrange(lo, hi);
    decode_utf8_encode_utf8(s);
    lemma_decode_len_le_all(decode_utf8(s));
}

proof fn lemma_decode_len_le_all(cs: Seq<char>)
    ensures
        cs.len() <= encode_utf8(cs).len(),
    decreases cs.len(),
{
    if cs.len() > 0 {
        lemma_decode_len_le_all(cs.drop_first());
    }
}

/// Owns the source files of a compilation and resolves spans against them.
#[derive(Debug)]
pub struct SourceMap {
    files: Vec<SourceFile>,
}

impl View for SourceMap {
    type V = Seq<SourceFile>;

    closed spec fn view(&self) -> Seq<SourceFile> {
        self.files@
    }
}

impl SourceMap {
    #[verifier::type_invariant]
    closed spec fn wf(self) -> bool {
        &&& self.files@.len() <= u32::MAX
        &&& forall|i: int| 0 <= i < self.files@.len() ==> self.files@[i].spec_id().spec_index() == i
    }

    /// Create an empty source map.
    pub fn new() -> (r: SourceMap)
        ensures
            r@ == Seq::<SourceFile>::empty(),
    {
        SourceMap { files: Vec::new() }
    }

    /// Add a file with the given `name` and `source`, returning its identifier.
    pub fn add_file(&mut self, name: &str, source: &str) -> (r: FileId)
        requires
            old(self)@.len() < u32::MAX,
            source.spec_bytes().len() < u32::MAX,
        ensures
            r.spec_index() == old(self)@.len(),
            final(self)@.len() == old(self)@.len() + 1,
            final(self)@.drop_last() == old(self)@,
            final(self)@.last().spec_id() == r,
            final(self)@.last().spec_name() == name@,
            final(self)@.last().text() == source@,
    {
        proof { use_type_invariant(&*self); }
        let id = FileId::from_index(self.files.len());
        let line_starts = compute_line_starts(source);
        let file = SourceFile {
            id,
            name: String::from_str(name),
            src: String::from_str(source),
            line_starts,
        };
        let mut files: Vec<SourceFile> = Vec::new();
        std::mem::swap(&mut files, &mut self.files);
        files.push(file);
        proof {
            assert(files@.drop_last() =~= old(self).files@);
        }
        self.files = files;
        id
    }

    /// Borrow the file with the given identifier.
    pub fn file(&self, id: FileId) -> (r: &SourceFile)
        requires
            id.spec_index() < self@.len(),
        ensures
            *r == self@[id.spec_index() as int],
            r.spec_id() == id,
            r.well_formed(),
    {
        proof { use_type_invariant(self); }
        let r = &self.files[id.index()];
        proof {
            use_type_invariant(r);
            FileId::lemma_eq_iff_index(r.spec_id(), id);
        }
        r
    }

    /// All files in the map, in insertion order.
    pub fn files(&self) -> (r: &[SourceFile])
        ensures
            r@ == self@,
            forall|i: int| 0 <= i < self@.len() ==> (#[trigger] self@[i]).spec_id().spec_index() == i,
    {
        proof { use_type_invariant(self); }
        self.files.as_slice()
    }

    /// Resolve the start of `span` to a 1-based [`LineCol`].
    pub fn line_col(&self, span: Span) -> (r: LineCol)
        requires
            span.file.spec_index() < self@.len(),
        ensures
            r == line_col_of(
                self@[span.file.spec_index() as int].bytes(),
                self@[span.file.spec_index() as int].starts(),
                span.lo.0 as int,
            ),
    {
        self.file(span.file()).line_col(span.lo())
    }

    /// The source text covered by `span`, clamped to the end of the file.
    pub fn span_text(&self, span: Span) -> (r: &str)
        requires
            span.file.spec_index() < self@.len(),
            span.lo.0 <= span.hi.0,
            is_char_boundary(
                self@[span.file.spec_index() as int].bytes(),
                min_int(span.lo.0 as int, self@[span.file.spec_index() as int].bytes().len() as int),
            ),
            is_char_boundary(
                self@[span.file.spec_index() as int].bytes(),
                min_int(span.hi.0 as int, self@[span.file.spec_index() as int].bytes().len() as int),
            ),
        ensures
            ({
                let b = self@[span.file.spec_index() as int].bytes();
                r@ == decode_range(
                    b,
                    min_int(span.lo.0 as int, b.len() as int),
                    min_int(span.hi.0 as int, b.len() as int),
                )
            }),
    {
        let file = self.file(span.file());
        let src = file.source();
        let len = src.len();
        let lo = if span.lo.0 as usize <= len { span.lo.0 as usize } else { len };
        let hi = if span.hi.0 as usize <= len { span.hi.0 as usize } else { len };
        byte_slice(src, lo, hi)
    }
}

/// Compute the byte offset of each line start in `src`.
fn compute_line_starts(src: &str) -> (r: Vec<BytePos>)
    requires
        src.spec_bytes().len() < u32::MAX,
    ensures
        r@.len() == line_starts_of(src.spec_bytes()).len(),
        forall|i: int| 0 <= i < r@.len() ==> r@[i].0 == line_starts_of(src.spec_bytes())[i],
{
    let bytes = src.as_bytes();
    let mut starts: Vec<BytePos> = Vec::new();
    starts.push(BytePos(0));
    let mut offset: usize = 0;
    while offset < bytes.len()
        invariant
            bytes@ == src.spec_bytes(),
            bytes@.len() < u32::MAX,
            0 <= offset <= bytes@.len(),
            starts@.len() == line_starts_upto(bytes@, offset as int).len(),
            forall|i: int| 0 <= i < starts@.len()
                ==> starts@[i].0 == line_starts_upto(bytes@, offset as int)[i],
        decreases bytes.len() - offset,
    {
        if bytes[offset] == 10u8 {
            starts.push(BytePos(offset as u32 + 1));
        }
        offset = offset + 1;
    }
    starts
}

} // verus!
