use vstd::prelude::*;

use crate::source_position_marker::{combined, CharWithSourcePosition, SourceRange, SourceRangeView};

verus! {

/// Relies on `String::push`: the character is appended at the end.
pub assume_specification[ std::string::String::push ](s: &mut std::string::String, ch: char)
    ensures
        final(s)@ == old(s)@.push(ch),
;

/// A token with the source range that it covers.
#[derive(Debug)]
pub struct PairLiteralToken<'a> {
    pub range: SourceRange<'a>,
    pub token: PairLiteralInner,
}

/// What a token is: a string literal or a character literal with its
/// content, or one character outside any literal.
#[derive(Debug)]
pub enum PairLiteralInner {
    String(String),
    Char(String),
    Unmatched(char),
}

/// A literal that is never closed, with the range of its opening delimiter.
#[derive(Debug)]
pub enum ParseError<'a> {
    UnmatchedString(SourceRange<'a>),
    UnmatchedChar(SourceRange<'a>),
}

/// What a `PairLiteralInner` denotes.
pub enum PairLiteralView {
    String(Seq<char>),
    Char(Seq<char>),
    Unmatched(char),
}

/// What a `PairLiteralToken` denotes.
pub struct PairLiteralTokenView {
    pub range: SourceRangeView,
    pub token: PairLiteralView,
}

/// What a `ParseError` denotes.
pub enum ParseErrorView {
    UnmatchedString(SourceRangeView),
    UnmatchedChar(SourceRangeView),
}

impl View for PairLiteralInner {
    type V = PairLiteralView;

    open spec fn view(&self) -> PairLiteralView {
        match self {
            PairLiteralInner::String(s) => PairLiteralView::String(s@),
            PairLiteralInner::Char(s) => PairLiteralView::Char(s@),
            PairLiteralInner::Unmatched(c) => PairLiteralView::Unmatched(*c),
        }
    }
}

impl<'a> View for PairLiteralToken<'a> {
    type V = PairLiteralTokenView;

    open spec fn view(&self) -> PairLiteralTokenView {
        PairLiteralTokenView { range: self.range@, token: self.token@ }
    }
}

impl<'a> View for ParseError<'a> {
    type V = ParseErrorView;

    open spec fn view(&self) -> ParseErrorView {
        match self {
            ParseError::UnmatchedString(r) => ParseErrorView::UnmatchedString(r@),
            ParseError::UnmatchedChar(r) => ParseErrorView::UnmatchedChar(r@),
        }
    }
}

/// What one element of the token stream denotes.
pub open spec fn result_view<'a>(r: Result<PairLiteralToken<'a>, ParseError<'a>>) -> Result<
    PairLiteralTokenView,
    ParseErrorView,
> {
    match r {
        Ok(t) => Ok(t@),
        Err(e) => Err(e@),
    }
}

/// Where the tokenizer stands between two characters: outside any literal,
/// or inside one that `close` ends, opened at `open`, with the content read
/// so far and whether the last character was an escaping backslash.
pub enum ScanState {
    Start,
    Scanning { close: char, open: SourceRangeView, content: Seq<char>, escaped: bool },
}

/// A delimiter that opens a literal.
pub open spec fn is_delimiter(c: char) -> bool {
    c == '"' || c == '\''
}

/// The literal that `close` ends, holding `content`.
pub open spec fn literal_of(close: char, content: Seq<char>) -> PairLiteralView {
    if close == '"' {
        PairLiteralView::String(content)
    } else {
        PairLiteralView::Char(content)
    }
}

/// The error for a literal that `close` would end, opened at `open`.
pub open spec fn unmatched_of(close: char, open: SourceRangeView) -> ParseErrorView {
    if close == '"' {
        ParseErrorView::UnmatchedString(open)
    } else {
        ParseErrorView::UnmatchedChar(open)
    }
}

/// The elements produced from the characters of `s` from index `i` on, in
/// state `st`. A backslash that is not itself escaped escapes the next
/// character, which is then taken into the content as it is; the backslash
/// is dropped. A literal still open at the end of the input gives one error
/// and ends the stream.
pub open spec fn scan<'a>(s: Seq<CharWithSourcePosition<'a>>, i: int, st: ScanState) -> Seq<
    Result<PairLiteralTokenView, ParseErrorView>,
>
    decreases s.len() - i,
{
    if i < 0 || i >= s.len() {
        match st {
            ScanState::Start => seq![],
            ScanState::Scanning { close, open, .. } => seq![Err(unmatched_of(close, open))],
        }
    } else {
        let c = s[i];
        match st {
            ScanState::Start => {
                if is_delimiter(c.ch) {
                    scan(
                        s,
                        i + 1,
                        ScanState::Scanning {
                            close: c.ch,
                            open: c.range@,
                            content: seq![],
                            escaped: false,
                        },
                    )
                } else {
                    seq![
                        Ok(
                            PairLiteralTokenView {
                                range: c.range@,
                                token: PairLiteralView::Unmatched(c.ch),
                            },
                        ),
                    ] + scan(s, i + 1, ScanState::Start)
                }
            },
            ScanState::Scanning { close, open, content, escaped } => {
                if c.ch == close && !escaped {
                    seq![
                        Ok(
                            PairLiteralTokenView {
                                range: combined(open, c.range@),
                                token: literal_of(close, content),
                            },
                        ),
                    ] + scan(s, i + 1, ScanState::Start)
                } else if c.ch == '\\' && !escaped {
                    scan(
                        s,
                        i + 1,
                        ScanState::Scanning { close, open, content, escaped: true },
                    )
                } else {
                    scan(
                        s,
                        i + 1,
                        ScanState::Scanning { close, open, content: content.push(c.ch), escaped: false },
                    )
                }
            },
        }
    }
}

/// The token stream of a sequence of tagged characters.
pub open spec fn pair_tokens<'a>(s: Seq<CharWithSourcePosition<'a>>) -> Seq<
    Result<PairLiteralTokenView, ParseErrorView>,
> {
    scan(s, 0, ScanState::Start)
}

/// All characters come from one source.
pub open spec fn same_source<'a>(s: Seq<CharWithSourcePosition<'a>>) -> bool {
    forall|i: int, j: int|
        0 <= i < s.len() && 0 <= j < s.len() ==> #[trigger] s[i].range.uri@ == #[trigger] s[j].range.uri@
}

/// Reads the literal that starts after the opening delimiter at `*pos - 1`,
/// up to the delimiter `br` that closes it, and leaves `pos` after that.
fn find_pair<'a>(src: &Vec<CharWithSourcePosition<'a>>, pos: &mut usize, begin: SourceRange<'a>, br: char) -> (r: Result<(String, SourceRange<'a>), SourceRange<'a>>)
    requires
        0 < *old(pos) <= src@.len(),
        begin == src@[*old(pos) - 1].range,
        same_source(src@),
    ensures
        *old(pos) <= *final(pos) <= src@.len(),
        scan(src@, *old(pos) as int, ScanState::Scanning { close: br, open: begin@, content: seq![], escaped: false })
            == match r {
            Ok((content, range)) => seq![
                Ok(PairLiteralTokenView { range: range@, token: literal_of(br, content@) }),
            ] + scan(src@, *final(pos) as int, ScanState::Start),
            Err(open) => seq![Err(unmatched_of(br, open@))],
        },
        r is Err ==> r->Err_0 == begin && *final(pos) == src@.len(),
{
    let ghost start = *pos as int;
    let mut acc = String::new();
    let mut last_is_escape = false;
    while *pos < src.len()
        invariant
            start == *old(pos),
            start <= *pos <= src@.len(),
            scan(src@, start, ScanState::Scanning { close: br, open: begin@, content: seq![], escaped: false })
                == scan(src@, *pos as int, ScanState::Scanning { close: br, open: begin@, content: acc@, escaped: last_is_escape }),
            begin == src@[start - 1].range,
            0 < start,
            same_source(src@),
        decreases src@.len() - *pos,
    {
        let token = &src[*pos];
        let ghost at = *pos as int;
        *pos = *pos + 1;
        if token.ch == br && !last_is_escape {
            let end = token.range;
            proof {
                assert(src@[at].range.uri@ == src@[start - 1].range.uri@);
            }
            let range = begin.combine(end);
            return Ok((acc, range));
        } else {
            if token.ch == '\\' && !last_is_escape {
                last_is_escape = true;
            } else {
                last_is_escape = false;
                acc.push(token.ch);
            }
        }
    }
    Err(begin)
}

/// Reads the element of the token stream that starts with `next`, the
/// character just before `*pos`, and leaves `pos` after its last character.
fn inner_next<'a>(src: &Vec<CharWithSourcePosition<'a>>, pos: &mut usize, next: &CharWithSourcePosition<'a>) -> (r: Result<PairLiteralToken<'a>, ParseError<'a>>)
    requires
        0 < *old(pos) <= src@.len(),
        *next == src@[*old(pos) - 1],
        same_source(src@),
    ensures
        *old(pos) <= *final(pos) <= src@.len(),
        scan(src@, *old(pos) - 1, ScanState::Start) == seq![result_view(r)] + scan(src@, *final(pos) as int, ScanState::Start),
{
    if next.ch == '"' {
        match find_pair(src, pos, next.range, '"') {
            Ok((s, range)) => Ok(PairLiteralToken { range, token: PairLiteralInner::String(s) }),
            Err(e) => Err(ParseError::UnmatchedString(e)),
        }
    } else if next.ch == '\'' {
        match find_pair(src, pos, next.range, '\'') {
            Ok((s, range)) => Ok(PairLiteralToken { range, token: PairLiteralInner::Char(s) }),
            Err(e) => Err(ParseError::UnmatchedChar(e)),
        }
    } else {
        Ok(PairLiteralToken { range: next.range, token: PairLiteralInner::Unmatched(next.ch) })
    }
}

/// Groups tagged characters into tokens: a run between two matching double
/// quotes is a string literal, one between two matching apostrophes a
/// character literal, and any other character a token of its own. A literal
/// that is never closed gives an error and ends the stream.
pub fn parse_pairs<'a>(src: Vec<CharWithSourcePosition<'a>>) -> (r: Vec<Result<PairLiteralToken<'a>, ParseError<'a>>>)
    requires
        same_source(src@),
    ensures
        r@.map_values(|e: Result<PairLiteralToken<'a>, ParseError<'a>>| result_view(e)) == pair_tokens(src@),
{
    let mut out: Vec<Result<PairLiteralToken<'a>, ParseError<'a>>> = Vec::new();
    let mut pos: usize = 0;
    while pos < src.len()
        invariant
            pos <= src@.len(),
            same_source(src@),
            out@.map_values(|e: Result<PairLiteralToken<'a>, ParseError<'a>>| result_view(e))
                + scan(src@, pos as int, ScanState::Start) == pair_tokens(src@),
        decreases src@.len() - pos,
    {
        let ghost before = out@;
        let next = &src[pos];
        pos = pos + 1;
        let item = inner_next(&src, &mut pos, next);
        out.push(item);
        proof {
            let f = |e: Result<PairLiteralToken<'a>, ParseError<'a>>| result_view(e);
            assert(out@.map_values(f) =~= before.map_values(f).push(result_view(item)));
            assert(before.map_values(f).push(result_view(item)) + scan(src@, pos as int, ScanState::Start)
                =~= before.map_values(f) + (seq![result_view(item)] + scan(src@, pos as int, ScanState::Start)));
        }
    }
    assert(out@.map_values(|e: Result<PairLiteralToken<'a>, ParseError<'a>>| result_view(e))
        =~= pair_tokens(src@));
    out
}

proof fn lemma_scan_error_is_last<'a>(s: Seq<CharWithSourcePosition<'a>>, i: int, st: ScanState)
    requires
        0 <= i <= s.len(),
    ensures
        forall|k: int|
            0 <= k < scan(s, i, st).len() && (#[trigger] scan(s, i, st)[k]) is Err ==> k == scan(s, i, st).len() - 1,
    decreases s.len() - i,
{
    if i < s.len() {
        let c = s[i];
        match st {
            ScanState::Start => {
                if is_delimiter(c.ch) {
                    lemma_scan_error_is_last(s, i + 1, ScanState::Scanning { close: c.ch, open: c.range@, content: seq![], escaped: false });
                } else {
                    lemma_scan_error_is_last(s, i + 1, ScanState::Start);
                    let rest = scan(s, i + 1, ScanState::Start);
                    assert forall|k: int| 0 <= k < scan(s, i, st).len() && (#[trigger] scan(s, i, st)[k]) is Err implies k == scan(s, i, st).len() - 1 by {
                        assert(k > 0);
                        assert(scan(s, i, st)[k] == rest[k - 1]);
                    }
                }
            },
            ScanState::Scanning { close, open, content, escaped } => {
                if c.ch == close && !escaped {
                    lemma_scan_error_is_last(s, i + 1, ScanState::Start);
                    let rest = scan(s, i + 1, ScanState::Start);
                    assert forall|k: int| 0 <= k < scan(s, i, st).len() && (#[trigger] scan(s, i, st)[k]) is Err implies k == scan(s, i, st).len() - 1 by {
                        assert(k > 0);
                        assert(scan(s, i, st)[k] == rest[k - 1]);
                    }
                } else if c.ch == '\\' && !escaped {
                    lemma_scan_error_is_last(s, i + 1, ScanState::Scanning { close, open, content, escaped: true });
                } else {
                    lemma_scan_error_is_last(s, i + 1, ScanState::Scanning { close, open, content: content.push(c.ch), escaped: false });
                }
            },
        }
    }
}

/// An unclosed literal ends the token stream: an error can only be its last
/// element.
pub proof fn lemma_error_ends_stream<'a>(s: Seq<CharWithSourcePosition<'a>>)
    ensures
        forall|k: int|
            0 <= k < pair_tokens(s).len() && (#[trigger] pair_tokens(s)[k]) is Err ==> k == pair_tokens(s).len() - 1,
{
    lemma_scan_error_is_last(s, 0, ScanState::Start);
}

/// The token that a character outside any literal gives.
pub open spec fn unmatched_token<'a>(c: CharWithSourcePosition<'a>) -> Result<PairLiteralTokenView, ParseErrorView> {
    Ok(PairLiteralTokenView { range: c.range@, token: PairLiteralView::Unmatched(c.ch) })
}

proof fn lemma_scan_without_delimiters<'a>(s: Seq<CharWithSourcePosition<'a>>, i: int)
    requires
        0 <= i <= s.len(),
        forall|k: int| 0 <= k < s.len() ==> !is_delimiter(#[trigger] s[k].ch),
    ensures
        scan(s, i, ScanState::Start).len() == s.len() - i,
        forall|k: int| 0 <= k < s.len() - i ==> #[trigger] scan(s, i, ScanState::Start)[k] == unmatched_token(s[i + k]),
    decreases s.len() - i,
{
    if i < s.len() {
        lemma_scan_without_delimiters(s, i + 1);
        let rest = scan(s, i + 1, ScanState::Start);
        assert(!is_delimiter(s[i].ch));
        assert(scan(s, i, ScanState::Start) == seq![unmatched_token(s[i])] + rest);
        assert forall|k: int| 0 <= k < s.len() - i implies #[trigger] scan(s, i, ScanState::Start)[k] == unmatched_token(s[i + k]) by {
            if k > 0 {
                assert(rest[k - 1] == unmatched_token(s[i + 1 + (k - 1)]));
            }
        }
    }
}

/// Without quotes or apostrophes in the input, every character becomes a
/// token of its own, in order and with its own range, and there is no error.
pub proof fn lemma_no_delimiters_all_unmatched<'a>(s: Seq<CharWithSourcePosition<'a>>)
    requires
        forall|k: int| 0 <= k < s.len() ==> !is_delimiter(#[trigger] s[k].ch),
    ensures
        pair_tokens(s).len() == s.len(),
        forall|k: int| 0 <= k < s.len() ==> #[trigger] pair_tokens(s)[k] == unmatched_token(s[k]),
        forall|k: int| 0 <= k < s.len() ==> #[trigger] pair_tokens(s)[k] is Ok,
{
    lemma_scan_without_delimiters(s, 0);
    assert forall|k: int| 0 <= k < s.len() implies #[trigger] pair_tokens(s)[k] == unmatched_token(s[k]) by {
        assert(s[0 + k] == s[k]);
    }
}

} // verus!
