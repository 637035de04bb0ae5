use vstd::prelude::*;
use vstd::std_specs::iter::IteratorSpec;

verus! {

/// A point in a source file, zero indexed.
#[derive(Debug, Clone, Copy, PartialEq, Eq, Structural)]
pub struct SourcePosition {
    pub line: usize,
    pub col: usize,
}

/// The position of a token in a source file, as a range within one named source.
#[derive(Debug, Clone, Copy)]
pub struct SourceRange<'a> {
    pub uri: &'a str,
    pub begin: SourcePosition,
    pub end: SourcePosition,
}

/// What a `SourceRange` denotes: the source's name as characters, and the two ends.
pub struct SourceRangeView {
    pub uri: Seq<char>,
    pub begin: SourcePosition,
    pub end: SourcePosition,
}

impl<'a> View for SourceRange<'a> {
    type V = SourceRangeView;

    open spec fn view(&self) -> SourceRangeView {
        SourceRangeView { uri: self.uri@, begin: self.begin, end: self.end }
    }
}

/// The range from the start of `a` to the end of `b`.
pub open spec fn combined(a: SourceRangeView, b: SourceRangeView) -> SourceRangeView {
    SourceRangeView { uri: a.uri, begin: a.begin, end: b.end }
}

impl<'a> SourceRange<'a> {
    /// Widens this range so that it ends where `other` ends. Both ranges must
    /// lie in the same source: ranges of two sources are never combined.
    pub fn combine(self, other: Self) -> (r: Self)
        requires
            self.uri@ == other.uri@,
        ensures
            r.uri == self.uri,
            r.begin == self.begin,
            r.end == other.end,
            r@ == combined(self@, other@),
    {
        let mut s = self;
        s.end = other.end;
        s
    }
}

/// A character of the original file with where it stood.
#[derive(Debug, Clone, Copy)]
pub struct CharWithSourcePosition<'a> {
    pub ch: char,
    pub range: SourceRange<'a>,
}

impl<'a> CharWithSourcePosition<'a> {
    /// The character `ch` at (`line`, `col`) of source `uri`, as a one-point range.
    pub fn at(ch: char, uri: &'a str, line: usize, col: usize) -> (r: Self)
        ensures
            r.ch == ch,
            r.range.uri == uri,
            r.range.begin == (SourcePosition { line, col }),
            r.range.end == r.range.begin,
    {
        let pos = SourcePosition { line, col };
        CharWithSourcePosition { ch, range: SourceRange { uri, begin: pos, end: pos } }
    }
}

/// The characters of `s` from index `i` on, each with its (line, column),
/// where the scan is at `line` and `col` when it reaches `i`. A line feed
/// ends a line and a carriage return right before a line feed belongs to
/// the line ending; neither is tagged.
pub open spec fn tag_from(s: Seq<char>, i: int, line: nat, col: nat) -> Seq<(char, nat, nat)>
    decreases s.len() - i,
{
    if i < 0 || i >= s.len() {
        seq![]
    } else if s[i] == '\n' {
        tag_from(s, i + 1, line + 1, 0)
    } else if s[i] == '\r' && i + 1 < s.len() && s[i + 1] == '\n' {
        tag_from(s, i + 1, line, col)
    } else {
        seq![(s[i], line, col)] + tag_from(s, i + 1, line, col + 1)
    }
}

/// The characters of a source text, each with its zero-based line and column.
pub open spec fn tagged(s: Seq<char>) -> Seq<(char, nat, nat)> {
    tag_from(s, 0, 0, 0)
}

/// `c` is the character `t` of source `uri`, with a one-point range.
pub open spec fn tags_as<'a>(c: CharWithSourcePosition<'a>, t: (char, nat, nat), uri: &'a str) -> bool {
    &&& c.ch == t.0
    &&& c.range.uri == uri
    &&& c.range.begin.line == t.1
    &&& c.range.begin.col == t.2
    &&& c.range.end == c.range.begin
}

/// `r` is the tagging of the source text `s` named `uri`.
pub open spec fn tags_source<'a>(r: Seq<CharWithSourcePosition<'a>>, s: Seq<char>, uri: &'a str) -> bool {
    &&& r.len() == tagged(s).len()
    &&& forall|k: int| 0 <= k < r.len() ==> #[trigger] tags_as(r[k], tagged(s)[k], uri)
}

/// The characters of `s`, in order.
fn chars_of(s: &str) -> (r: Vec<char>)
    ensures
        r@ == s@,
{
    let mut chars: Vec<char> = Vec::new();
    proof {
        broadcast use vstd::string::axiom_spec_iter;
    }
    for c in it: s.chars()
        invariant
            it.seq() == s@,
            chars@ == it.seq().take(it.index() as int),
    {
        chars.push(c);
    }
    chars
}

/// The characters of `src`, each with its (line, column) in source `uri`.
/// Line endings are consumed and produce no character.
pub fn from_source<'a>(src: &'a str, uri: &'a str) -> (r: Vec<CharWithSourcePosition<'a>>)
    ensures
        tags_source(r@, src@, uri),
        forall|k: int| 0 <= k < r@.len() ==> #[trigger] r@[k].range.uri == uri,
{
    let chars = chars_of(src);
    let ghost s = chars@;
    assert(s == src@);
    let n = chars.len();
    let mut out: Vec<CharWithSourcePosition<'a>> = Vec::new();
    let ghost mut done: Seq<(char, nat, nat)> = seq![];
    let mut i: usize = 0;
    let mut line: usize = 0;
    let mut col: usize = 0;
    while i < n
        invariant
            n == s.len(),
            chars@ == s,
            0 <= i <= n,
            line <= i,
            col <= i,
            done + tag_from(s, i as int, line as nat, col as nat) == tagged(s),
            out@.len() == done.len(),
            forall|k: int| 0 <= k < out@.len() ==> #[trigger] tags_as(out@[k], done[k], uri),
        decreases n - i,
    {
        let c = chars[i];
        if c == '\n' {
            line = line + 1;
            col = 0;
        } else if !(c == '\r' && i + 1 < n && chars[i + 1] == '\n') {
            out.push(CharWithSourcePosition::at(c, uri, line, col));
            proof {
                let t = (c, line as nat, col as nat);
                let rest = tag_from(s, i + 1, line as nat, col as nat + 1);
                assert(tag_from(s, i as int, line as nat, col as nat) == seq![t] + rest);
                assert(done.push(t) + rest =~= done + (seq![t] + rest));
                done = done.push(t);
                assert(tags_as(out@[out@.len() - 1], done[done.len() - 1], uri));
            }
            col = col + 1;
        }
        i = i + 1;
    }
    assert(done == tagged(s));
    assert forall|k: int| 0 <= k < out@.len() implies #[trigger] out@[k].range.uri == uri by {
        assert(tags_as(out@[k], done[k], uri));
    }
    out
}

/// Tagging is a function of the source text and its name: two taggings of
/// the same text under the same name are the same sequence, character by
/// character and range by range.
pub proof fn lemma_tagging_deterministic<'a>(
    s: Seq<char>,
    uri: &'a str,
    r1: Seq<CharWithSourcePosition<'a>>,
    r2: Seq<CharWithSourcePosition<'a>>,
)
    requires
        tags_source(r1, s, uri),
        tags_source(r2, s, uri),
    ensures
        r1 == r2,
{
    assert forall|k: int| 0 <= k < r1.len() implies r1[k] == r2[k] by {
        assert(tags_as(r1[k], tagged(s)[k], uri));
        assert(tags_as(r2[k], tagged(s)[k], uri));
    }
    assert(r1 =~= r2);
}

} // verus!
