//! Markdown documents with a YAML header between `---` lines.
use vstd::prelude::*;

use crate::text::chars_of;

verus! {

/// A document's header and the text after it.
#[derive(Clone, Debug)]
pub struct ParsedDoc<T> {
    pub frontmatter: T,
    pub body: String,
}

/// What closes a header: a line that begins with `---`, with the line break before it.
pub open spec fn fence() -> Seq<char> {
    seq!['\n', '-', '-', '-']
}

/// Whether `part` stands in `content` at position `i`.
pub open spec fn occurs_at(content: Seq<char>, part: Seq<char>, i: int) -> bool {
    0 <= i && i + part.len() <= content.len() && content.subrange(i, i + part.len()) == part
}

/// Whether a document begins with a header: a first line of `---`.
pub open spec fn opens_header(content: Seq<char>) -> bool {
    occurs_at(content, seq!['-', '-', '-', '\n'], 0) || occurs_at(
        content,
        seq!['-', '-', '-', '\r', '\n'],
        0,
    )
}

/// Whether the header is closed at `i`: that is where the first fence stands.
pub open spec fn closes_header(content: Seq<char>, i: int) -> bool {
    &&& 4 <= i
    &&& occurs_at(content, fence(), i)
    &&& forall|j: int| 4 <= j < i ==> !#[trigger] occurs_at(content, fence(), j)
}

/// Where the body begins, for a header closed at `i`: after the fence and a line break
/// directly behind it.
pub open spec fn body_start(content: Seq<char>, i: int) -> int {
    let after = i + 4;
    if after < content.len() && content[after] == '\n' {
        after + 1
    } else if after + 1 < content.len() && content[after] == '\r' && content[after + 1] == '\n' {
        after + 2
    } else {
        after
    }
}

/// The header of a document and its body. Without a header that is both opened and closed, the
/// whole document is body.
pub open spec fn split_document(content: Seq<char>) -> (Option<Seq<char>>, Seq<char>) {
    if opens_header(content) && exists|i: int| closes_header(content, i) {
        let i = choose|i: int| closes_header(content, i);
        (Some(content.subrange(4, i)), content.skip(body_start(content, i)))
    } else {
        (None, content)
    }
}

/// Only one fence is the first.
proof fn lemma_closing_unique(content: Seq<char>, i: int, j: int)
    requires
        closes_header(content, i),
        closes_header(content, j),
    ensures
        i == j,
{
    assert(occurs_at(content, fence(), i));
    assert(occurs_at(content, fence(), j));
}

/// Splits a document into the text of its header, where it has one, and its body.
pub fn split_frontmatter(content: &str) -> (doc: ParsedDoc<Option<String>>)
    ensures
        doc.frontmatter is Some == split_document(content@).0 is Some,
        doc.frontmatter is Some ==> doc.frontmatter->0@ == split_document(content@).0->0,
        doc.body@ == split_document(content@).1,
{
    let chars = chars_of(content);
    let n = chars.len();
    let dashes = n >= 4 && chars[0] == '-' && chars[1] == '-' && chars[2] == '-';
    let opened = dashes && (chars[3] == '\n' || (n >= 5 && chars[3] == '\r' && chars[4] == '\n'));
    proof {
        if n >= 4 {
            assert(content@.subrange(0, 4) == seq![
                content@[0],
                content@[1],
                content@[2],
                content@[3],
            ]);
            if occurs_at(content@, seq!['-', '-', '-', '\n'], 0) {
                assert(content@.subrange(0, 4)[0] == '-' && content@.subrange(0, 4)[1] == '-'
                    && content@.subrange(0, 4)[2] == '-' && content@.subrange(0, 4)[3] == '\n');
            }
        }
        if n >= 5 {
            let five = content@.subrange(0, 5);
            assert(five == seq![content@[0], content@[1], content@[2], content@[3], content@[4]]);
            if occurs_at(content@, seq!['-', '-', '-', '\r', '\n'], 0) {
                assert(five[0] == '-' && five[1] == '-' && five[2] == '-' && five[3] == '\r'
                    && five[4] == '\n');
            }
        }
        assert(opened == opens_header(content@));
    }
    if opened {
        let mut i: usize = 4;
        while n - i >= 4
            invariant
                4 <= i <= n,
                n == chars@.len(),
                chars@ == content@,
                opens_header(content@),
                forall|j: int| 4 <= j < i ==> !#[trigger] occurs_at(content@, fence(), j),
            decreases n - i,
        {
            let ghost window = content@.subrange(i as int, i + 4);
            assert(window == seq![
                content@[i as int],
                content@[i + 1],
                content@[i + 2],
                content@[i + 3],
            ]);
            if chars[i] == '\n' && chars[i + 1] == '-' && chars[i + 2] == '-' && chars[i + 3]
                == '-' {
                assert(window == fence());
                assert(occurs_at(content@, fence(), i as int));
                assert(closes_header(content@, i as int));
                proof {
                    let chosen = choose|k: int| closes_header(content@, k);
                    lemma_closing_unique(content@, i as int, chosen);
                }
                let after = i + 4;
                let start = if after < n && chars[after] == '\n' {
                    after + 1
                } else if n - after >= 2 && chars[after] == '\r' && chars[after + 1] == '\n' {
                    after + 2
                } else {
                    after
                };
                return ParsedDoc {
                    frontmatter: Some(content.substring_char(4, i).to_owned()),
                    body: content.substring_char(start, n).to_owned(),
                };
            }
            assert(!occurs_at(content@, fence(), i as int)) by {
                if window == fence() {
                    assert(window[0] == '\n' && window[1] == '-' && window[2] == '-' && window[3]
                        == '-');
                }
            }
            i = i + 1;
        }
        assert forall|k: int| !closes_header(content@, k) by {
            if closes_header(content@, k) {
                assert(occurs_at(content@, fence(), k));
            }
        }
    }
    ParsedDoc { frontmatter: None, body: content.to_owned() }
}

/// Whether `result` is what reading a document gives, when `parse` reads headers: the parsed
/// header, or `default` where there is none, and the body; or the parser's error.
pub open spec fn is_parsed<T, E, F: Fn(&str) -> Result<T, E>>(
    content: Seq<char>,
    parse: F,
    default: T,
    result: Result<ParsedDoc<T>, E>,
) -> bool {
    let (header, body) = split_document(content);
    match header {
        None => result matches Ok(doc) && doc.frontmatter == default && doc.body@ == body,
        Some(header) => exists|text: &str, parsed: Result<T, E>|
            {
                &&& text@ == header
                &&& #[trigger] call_ensures(parse, (text,), parsed)
                &&& match parsed {
                    Ok(value) => result matches Ok(doc) && doc.frontmatter == value && doc.body@
                        == body,
                    Err(error) => result == Err::<ParsedDoc<T>, E>(error),
                }
            },
    }
}

/// Reads a document: splits it, and hands its header to `parse`.
pub fn parse_markdown_with_frontmatter<T, E, F: Fn(&str) -> Result<T, E>>(
    content: &str,
    parse: F,
    default: T,
) -> (result: Result<ParsedDoc<T>, E>)
    requires
        forall|text: &str| call_requires(parse, (text,)),
    ensures
        is_parsed(content@, parse, default, result),
{
    let doc = split_frontmatter(content);
    match doc.frontmatter {
        Some(header) => {
            let text = header.as_str();
            let parsed = parse(text);
            assert(call_ensures(parse, (text,), parsed));
            match parsed {
                Ok(value) => Ok(ParsedDoc { frontmatter: value, body: doc.body }),
                Err(error) => Err(error),
            }
        },
        None => Ok(ParsedDoc { frontmatter: default, body: doc.body }),
    }
}

// --- laws ---

/// A header that holds no fence and a body, written one after the other, are read back.
pub proof fn law_document_round_trip(header: Seq<char>, body: Seq<char>)
    requires
        forall|i: int| !#[trigger] occurs_at(header, fence(), i),
    ensures
        split_document(seq!['-', '-', '-', '\n'] + header + fence() + seq!['\n'] + body) == (
            Some(header),
            body,
        ),
{
    let open = seq!['-', '-', '-', '\n'];
    let content = open + header + fence() + seq!['\n'] + body;
    let end = 4 + header.len() as int;
    assert(content.subrange(0, 4) == open);
    assert(opens_header(content));
    assert(content.subrange(end, end + 4) == fence());
    assert forall|j: int| 4 <= j < end implies !#[trigger] occurs_at(content, fence(), j) by {
        if occurs_at(content, fence(), j) {
            let window = content.subrange(j, j + 4);
            if j + 4 <= end {
                assert(header.subrange(j - 4, j) == window);
                assert(occurs_at(header, fence(), j - 4));
            } else {
                assert(window[end - j] == content[end]);
                assert(content[end] == '\n');
                assert(fence()[end - j] == '-');
            }
        }
    }
    assert(closes_header(content, end));
    let i = choose|i: int| closes_header(content, i);
    lemma_closing_unique(content, i, end);
    assert(content[end + 4] == '\n');
    assert(content.subrange(4, end) == header);
    assert(content.skip(end + 5) == body);
}

/// A document that does not begin with a `---` line is all body.
pub proof fn law_plain_document(content: Seq<char>)
    requires
        !opens_header(content),
    ensures
        split_document(content) == (None::<Seq<char>>, content),
{
}

/// Splitting loses nothing but the fences and one line break: opening, header, fence, line break
/// and body make up the document.
pub proof fn law_split_is_lossless(content: Seq<char>)
    requires
        split_document(content).0 is Some,
    ensures
        exists|line_break: Seq<char>|
            {
                &&& line_break == Seq::<char>::empty() || line_break == seq!['\n'] || line_break
                    == seq!['\r', '\n']
                &&& content == content.take(4) + split_document(content).0->0 + fence()
                    + #[trigger] (line_break + split_document(content).1)
            },
{
    let i = choose|i: int| closes_header(content, i);
    assert(closes_header(content, i));
    assert(occurs_at(content, fence(), i));
    let start = body_start(content, i);
    let line_break = content.subrange(i + 4, start);
    let body = split_document(content).1;
    if start == i + 5 {
        assert(line_break == seq!['\n']);
    } else if start == i + 6 {
        assert(line_break == seq!['\r', '\n']);
    } else {
        assert(line_break == Seq::<char>::empty());
    }
    assert(line_break + body == content.skip(i + 4));
    assert(content == content.take(4) + content.subrange(4, i) + content.subrange(i, i + 4)
        + content.skip(i + 4));
}

/// A document that opens with a `---` line is cut at the first line break that is followed by
/// `---`. What stands between is the header, and what follows is the body, without one line break
/// at its beginning.
pub proof fn law_cut_at_the_first_fence(
    opening: Seq<char>,
    header: Seq<char>,
    close: Seq<char>,
    rest: Seq<char>,
)
    requires
        close == seq!['\n', '-', '-', '-'],
        opening == seq!['-', '-', '-', '\n'] || (opening == seq!['-', '-', '-', '\r'] && (header
            + close)[0] == '\n'),
        forall|i: int|
            0 <= i < header.len() ==> #[trigger] (header + close).subrange(i, i + 4) != close,
    ensures
        split_document(opening + header + close + rest).0 == Some(header),
        split_document(opening + header + close + rest).1 == if rest.len() > 0
            && rest[0] == '\n' {
            rest.skip(1)
        } else if rest.len() > 1 && rest[0] == '\r' && rest[1] == '\n' {
            rest.skip(2)
        } else {
            rest
        },
{
    let content = opening + header + close + rest;
    let end = 4 + header.len() as int;
    assert(close == fence());
    assert(opens_header(content)) by {
        if opening == seq!['-', '-', '-', '\n'] {
            assert(content.subrange(0, 4) == seq!['-', '-', '-', '\n']);
        } else {
            assert(content[4] == (header + close)[0]);
            assert(content.subrange(0, 5) == seq!['-', '-', '-', '\r', '\n']);
        }
    }
    assert(content.subrange(end, end + 4) == close);
    assert forall|j: int| 4 <= j < end implies !#[trigger] occurs_at(content, fence(), j) by {
        assert(content.subrange(j, j + 4) == (header + close).subrange(j - 4, j - 4 + 4));
    }
    assert(closes_header(content, end));
    let i = choose|i: int| closes_header(content, i);
    lemma_closing_unique(content, i, end);
    assert(content.subrange(4, end) == header);
    let after = end + 4;
    assert(content.skip(after) == rest);
    if rest.len() > 0 {
        assert(content[after] == rest[0]);
        assert(content.skip(after + 1) == rest.skip(1));
    }
    if rest.len() > 1 {
        assert(content[after + 1] == rest[1]);
        assert(content.skip(after + 2) == rest.skip(2));
    }
}

/// A document that does not open with a `---` line, or has no `---` after a later line break, is
/// all body.
pub proof fn law_document_without_header(content: Seq<char>)
    ensures
        !(content.len() >= 4 && content.take(4) == seq!['-', '-', '-', '\n']) && !(content.len()
            >= 5 && content.take(5) == seq!['-', '-', '-', '\r', '\n']) ==> split_document(content)
            == (None::<Seq<char>>, content),
        (forall|i: int|
            4 <= i <= content.len() - 4 ==> #[trigger] content.subrange(i, i + 4) != seq![
                '\n',
                '-',
                '-',
                '-',
            ]) ==> split_document(content) == (None::<Seq<char>>, content),
{
    if forall|i: int|
        4 <= i <= content.len() - 4 ==> #[trigger] content.subrange(i, i + 4) != seq![
            '\n',
            '-',
            '-',
            '-',
        ] {
        assert forall|i: int| !closes_header(content, i) by {
            if closes_header(content, i) {
                assert(content.subrange(i, i + 4) == fence());
            }
        }
    }
}

/// A document without a header comes with the default settings; one with a header comes with what
/// the reader makes of exactly that header, and fails with the reader's error.
pub proof fn law_header_goes_to_the_reader<T, E, F: Fn(&str) -> Result<T, E>>(
    content: Seq<char>,
    parse: F,
    default: T,
    result: Result<ParsedDoc<T>, E>,
)
    requires
        is_parsed(content, parse, default, result),
    ensures
        split_document(content).0 is None ==> (result matches Ok(doc) && doc.frontmatter == default
            && doc.body@ == split_document(content).1),
        split_document(content).0 matches Some(header) ==> exists|text: &str, parsed: Result<T, E>|
            {
                &&& text@ == header
                &&& #[trigger] call_ensures(parse, (text,), parsed)
                &&& parsed matches Ok(value) ==> (result matches Ok(doc) && doc.frontmatter == value
                    && doc.body@ == split_document(content).1)
                &&& parsed matches Err(error) ==> (result matches Err(own) && own == error)
            },
{
}

} // verus!
