use vstd::prelude::*;
use vstd::utf8::*;

verus! {

/// An optional string by its characters.
pub open spec fn opt_view(text: Option<String>) -> Option<Seq<char>> {
    match text {
        Some(text) => Some(text@),
        None => None,
    }
}

/// Strings by their characters.
pub open spec fn views(texts: Seq<String>) -> Seq<Seq<char>> {
    Seq::new(texts.len(), |i: int| texts[i]@)
}

/// The characters of `s`, one vector entry each.
pub fn chars_of(s: &str) -> (chars: Vec<char>)
    ensures
        chars@ == s@,
{
    broadcast use vstd::string::group_string_axioms;

    let mut chars: Vec<char> = Vec::new();
    for c in it: s.chars()
        invariant
            chars@ == s@.take(it.index() as int),
            it.seq() == s@,
    {
        chars.push(c);
        assert(s@.take(it.index() + 1) == s@.take(it.index() as int).push(c));
    }
    assert(s@.take(s@.len() as int) == s@);
    chars
}

/// Whether `a` and `b` hold the same characters.
pub fn same_text(a: &str, b: &str) -> (same: bool)
    ensures
        same == (a@ == b@),
{
    a.to_owned() == b.to_owned()
}

/// Whether some entry of `texts` holds the same characters as `text`.
pub fn contains_text(texts: &Vec<String>, text: &str) -> (found: bool)
    ensures
        found == views(texts@).contains(text@),
{
    let mut i: usize = 0;
    while i < texts.len()
        invariant
            i <= texts@.len(),
            forall|j: int| 0 <= j < i ==> #[trigger] views(texts@)[j] != text@,
        decreases texts@.len() - i,
    {
        if same_text(texts[i].as_str(), text) {
            assert(views(texts@)[i as int] == text@);
            return true;
        }
        i = i + 1;
    }
    false
}

/// Whether a character is white space.
pub open spec fn is_white_space(c: char) -> bool {
    ||| '\u{9}' <= c <= '\u{d}'
    ||| c == ' '
    ||| c == '\u{85}'
    ||| c == '\u{a0}'
    ||| c == '\u{1680}'
    ||| '\u{2000}' <= c <= '\u{200a}'
    ||| c == '\u{2028}'
    ||| c == '\u{2029}'
    ||| c == '\u{202f}'
    ||| c == '\u{205f}'
    ||| c == '\u{3000}'
}

/// Whether a text is empty or all white space.
pub open spec fn is_blank(text: Seq<char>) -> bool {
    forall|i: int| 0 <= i < text.len() ==> is_white_space(#[trigger] text[i])
}

/// Tells whether a text is empty or all white space.
pub fn blank(text: &str) -> (answer: bool)
    ensures
        answer == is_blank(text@),
{
    let chars = chars_of(text);
    let mut i: usize = 0;
    while i < chars.len()
        invariant
            i <= chars@.len(),
            chars@ == text@,
            forall|j: int| 0 <= j < i ==> is_white_space(#[trigger] text@[j]),
        decreases chars@.len() - i,
    {
        let c = chars[i];
        let white = ('\u{9}' <= c && c <= '\u{d}') || c == ' ' || c == '\u{85}' || c == '\u{a0}'
            || c == '\u{1680}' || ('\u{2000}' <= c && c <= '\u{200a}') || c == '\u{2028}' || c
            == '\u{2029}' || c == '\u{202f}' || c == '\u{205f}' || c == '\u{3000}';
        if !white {
            assert(!is_white_space(text@[i as int]));
            return false;
        }
        i = i + 1;
    }
    true
}

/// How many bytes a character takes up in UTF-8.
pub fn char_width(c: char) -> (width: usize)
    ensures
        width == encode_scalar(c as u32).len(),
        1 <= width <= 4,
{
    let code = c as u32;
    if code <= 0x7f {
        1
    } else if code <= 0x7ff {
        2
    } else if code <= 0xffff {
        3
    } else {
        4
    }
}

/// How many bytes a text takes up in UTF-8.
pub open spec fn byte_length(text: Seq<char>) -> nat {
    encode_utf8(text).len()
}

/// The digit of a number below ten.
pub open spec fn digit(n: nat) -> char {
    ('0' as u32 + n) as char
}

/// A number in decimal.
pub open spec fn decimal(n: nat) -> Seq<char>
    decreases n,
{
    if n < 10 {
        seq![digit(n)]
    } else {
        decimal(n / 10).push(digit(n % 10))
    }
}

/// The text of one digit.
fn digit_text(n: usize) -> (text: &'static str)
    requires
        n < 10,
    ensures
        text@ == seq![digit(n as nat)],
{
    proof {
        reveal_strlit("0");
        reveal_strlit("1");
        reveal_strlit("2");
        reveal_strlit("3");
        reveal_strlit("4");
        reveal_strlit("5");
        reveal_strlit("6");
        reveal_strlit("7");
        reveal_strlit("8");
        reveal_strlit("9");
    }
    let text = match n {
        0 => "0",
        1 => "1",
        2 => "2",
        3 => "3",
        4 => "4",
        5 => "5",
        6 => "6",
        7 => "7",
        8 => "8",
        _ => "9",
    };
    assert(text@ =~= seq![digit(n as nat)]);
    text
}

/// Writes a number in decimal.
pub fn decimal_text(n: usize) -> (text: String)
    ensures
        text@ == decimal(n as nat),
    decreases n,
{
    if n < 10 {
        digit_text(n).to_owned()
    } else {
        let mut text = decimal_text(n / 10);
        let ghost before = text@;
        text.append(digit_text(n % 10));
        assert(text@ == before.push(digit((n % 10) as nat)));
        text
    }
}

/// A text with every line feed written as a backslash and an `n`.
pub open spec fn escaped_newlines(text: Seq<char>) -> Seq<char>
    decreases text.len(),
{
    if text.len() == 0 {
        seq![]
    } else if text.last() == '\n' {
        escaped_newlines(text.drop_last()) + seq!['\\', 'n']
    } else {
        escaped_newlines(text.drop_last()).push(text.last())
    }
}

/// Writes every line feed as a backslash and an `n`.
pub fn escape_newlines(text: &str) -> (escaped: String)
    ensures
        escaped@ == escaped_newlines(text@),
{
    let chars = chars_of(text);
    let n = chars.len();
    let mut escaped = String::new();
    let mut start: usize = 0;
    let mut i: usize = 0;
    while i < n
        invariant
            start <= i <= n,
            n == chars@.len(),
            chars@ == text@,
            escaped@ + text@.subrange(start as int, i as int) == escaped_newlines(
                text@.take(i as int),
            ),
        decreases n - i,
    {
        let ghost next = text@.take(i + 1);
        assert(next.drop_last() == text@.take(i as int));
        assert(next.last() == text@[i as int]);
        if chars[i] == '\n' {
            proof {
                reveal_strlit("\\n");
            }
            let ghost before = escaped@;
            escaped.append(text.substring_char(start, i));
            escaped.append("\\n");
            assert("\\n"@ == seq!['\\', 'n']);
            start = i + 1;
            assert(escaped@ + text@.subrange(start as int, i + 1) == escaped@);
        } else {
            assert(escaped@ + text@.subrange(start as int, i + 1) == (escaped@ + text@.subrange(
                start as int,
                i as int,
            )).push(text@[i as int]));
        }
        i = i + 1;
    }
    escaped.append(text.substring_char(start, n));
    assert(text@.take(n as int) == text@);
    escaped
}

// --- laws ---

/// Text with its line feeds written out fits on one line.
pub proof fn law_escaped_is_one_line(text: Seq<char>)
    ensures
        !escaped_newlines(text).contains('\n'),
    decreases text.len(),
{
    if text.len() > 0 {
        law_escaped_is_one_line(text.drop_last());
        let front = escaped_newlines(text.drop_last());
        let all = escaped_newlines(text);
        assert forall|i: int| 0 <= i < all.len() implies all[i] != '\n' by {
            if i < front.len() {
                assert(all[i] == front[i]);
                assert(front.contains(front[i]));
            }
        }
    }
}

/// A text has more bytes than a shorter beginning of it.
pub proof fn law_longer_text_has_more_bytes(shorter: Seq<char>, longer: Seq<char>)
    requires
        shorter.is_prefix_of(longer),
        shorter.len() < longer.len(),
    ensures
        byte_length(shorter) < byte_length(longer),
    decreases shorter.len(),
{
    if shorter.len() > 0 {
        assert(shorter[0] == longer[0]);
        assert(shorter.drop_first() == longer.drop_first().take(shorter.len() - 1));
        law_longer_text_has_more_bytes(shorter.drop_first(), longer.drop_first());
    }
}

/// A text takes up the bytes of its characters, one after the other.
pub proof fn law_character_adds_its_bytes(text: Seq<char>, c: char)
    ensures
        byte_length(text.push(c)) == byte_length(text) + encode_scalar(c as u32).len(),
    decreases text.len(),
{
    reveal_with_fuel(encode_utf8, 2);
    if text.len() == 0 {
        assert(text.push(c).drop_first().len() == 0);
    } else {
        law_character_adds_its_bytes(text.drop_first(), c);
        assert(text.push(c).drop_first() == text.drop_first().push(c));
    }
}

/// The views of texts are their characters, each at its place.
pub proof fn law_views_are_the_characters(texts: Seq<String>, text: String)
    ensures
        views(texts).len() == texts.len(),
        forall|i: int| 0 <= i < texts.len() ==> #[trigger] views(texts)[i] == texts[i]@,
        opt_view(Some(text)) == Some(text@),
        opt_view(None) is None,
{
}

/// A text is blank exactly if all its parts are; of single characters, those are blank that
/// Unicode counts as white space.
pub proof fn law_blank_texts(a: Seq<char>, b: Seq<char>, c: char)
    ensures
        is_blank(seq![]),
        is_blank(a + b) <==> is_blank(a) && is_blank(b),
        is_blank(seq![c]) <==> {
            ||| 9 <= c as u32 <= 13
            ||| c as u32 == 0x20
            ||| c as u32 == 0x85
            ||| c as u32 == 0xa0
            ||| c as u32 == 0x1680
            ||| 0x2000 <= c as u32 <= 0x200a
            ||| c as u32 == 0x2028
            ||| c as u32 == 0x2029
            ||| c as u32 == 0x202f
            ||| c as u32 == 0x205f
            ||| c as u32 == 0x3000
        },
{
    if is_blank(a + b) {
        assert forall|i: int| 0 <= i < a.len() implies is_white_space(#[trigger] a[i]) by {
            assert((a + b)[i] == a[i]);
        }
        assert forall|i: int| 0 <= i < b.len() implies is_white_space(#[trigger] b[i]) by {
            assert((a + b)[a.len() + i] == b[i]);
        }
    }
    assert(seq![c][0] == c);
}

/// A text takes up as many bytes as its UTF-8 encoding has.
pub proof fn law_bytes_are_those_of_utf8(text: Seq<char>)
    ensures
        byte_length(text) == encode_utf8(text).len(),
{
}

/// Numbers below ten are one digit; any other number is its tenth and then its last digit.
pub proof fn law_decimal_digits(n: nat)
    ensures
        decimal(0) == seq!['0'],
        decimal(1) == seq!['1'],
        decimal(2) == seq!['2'],
        decimal(3) == seq!['3'],
        decimal(4) == seq!['4'],
        decimal(5) == seq!['5'],
        decimal(6) == seq!['6'],
        decimal(7) == seq!['7'],
        decimal(8) == seq!['8'],
        decimal(9) == seq!['9'],
        n >= 10 ==> decimal(n) == decimal(n / 10) + decimal(n % 10),
{
    if n >= 10 {
        let last = decimal(n % 10);
        assert(last == seq![digit(n % 10)]);
        assert(decimal(n / 10).push(digit(n % 10)) == decimal(n / 10) + last);
    }
}

/// Escaping goes character by character: a line feed becomes a backslash and an `n`, and every
/// other character stays as it is.
pub proof fn law_only_line_feeds_are_escaped(a: Seq<char>, b: Seq<char>, c: char)
    ensures
        escaped_newlines(seq![]) == Seq::<char>::empty(),
        escaped_newlines(seq!['\n']) == seq!['\\', 'n'],
        c != '\n' ==> escaped_newlines(seq![c]) == seq![c],
        escaped_newlines(a + b) == escaped_newlines(a) + escaped_newlines(b),
    decreases b.len(),
{
    reveal_with_fuel(escaped_newlines, 2);
    assert(seq![c].drop_last() == Seq::<char>::empty());
    assert(seq!['\n'].drop_last() == Seq::<char>::empty());
    assert(Seq::<char>::empty() + seq!['\\', 'n'] == seq!['\\', 'n']);
    if b.len() == 0 {
        assert(a + b == a);
        assert(escaped_newlines(a) + escaped_newlines(b) == escaped_newlines(a));
    } else {
        law_only_line_feeds_are_escaped(a, b.drop_last(), c);
        assert((a + b).drop_last() == a + b.drop_last());
        let front = escaped_newlines(a) + escaped_newlines(b.drop_last());
        if b.last() == '\n' {
            assert(front + seq!['\\', 'n'] == escaped_newlines(a) + escaped_newlines(b));
        } else {
            assert(front.push(b.last()) == escaped_newlines(a) + escaped_newlines(b));
        }
    }
}

} // verus!
