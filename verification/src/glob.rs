//! Glob patterns: their tokens, what they match, and how specific they are.
use vstd::prelude::*;
use vstd::utf8::*;

use crate::text::{char_width, chars_of};

verus! {

/// What a pattern is matched against, which decides how far a single `*` reaches.
#[derive(Clone, Copy, Debug, PartialEq, Eq, Structural)]
pub enum Subject {
    /// A file path: `*` stays within one path segment.
    Path,
    /// A shell command: `*` reaches across any characters.
    Command,
}

/// One element of a pattern.
#[derive(Clone, Copy, Debug, PartialEq, Eq, Structural)]
pub enum Token {
    /// `**`: any run of characters.
    AnyRun,
    /// `*`: a run of characters, which on a path holds no `/`.
    SegmentRun,
    /// `?`: exactly one character.
    AnyChar,
    /// Any other character stands for itself.
    Literal(char),
}

/// The token that a character stands for on its own.
pub open spec fn single_token(c: char) -> Token {
    if c == '*' {
        Token::SegmentRun
    } else if c == '?' {
        Token::AnyChar
    } else {
        Token::Literal(c)
    }
}

/// The tokens of a pattern, read from the left; two stars in a row are one token.
pub open spec fn tokens(pattern: Seq<char>) -> Seq<Token>
    decreases pattern.len(),
{
    if pattern.len() == 0 {
        seq![]
    } else if pattern.len() > 1 && pattern[0] == '*' && pattern[1] == '*' {
        seq![Token::AnyRun] + tokens(pattern.skip(2))
    } else {
        seq![single_token(pattern[0])] + tokens(pattern.skip(1))
    }
}

/// Whether a run token may cover the single character `c`.
pub open spec fn run_covers(token: Token, subject: Subject, c: char) -> bool {
    token == Token::AnyRun || subject == Subject::Command || c != '/'
}

/// Whether a run token may cover all of `run`.
pub open spec fn run_covers_all(token: Token, subject: Subject, run: Seq<char>) -> bool {
    forall|i: int| 0 <= i < run.len() ==> run_covers(token, subject, #[trigger] run[i])
}

/// Whether the tokens, in order, account for exactly the characters of `input`.
pub open spec fn tokens_match(tokens: Seq<Token>, subject: Subject, input: Seq<char>) -> bool
    decreases tokens.len(),
{
    if tokens.len() == 0 {
        input.len() == 0
    } else {
        match tokens[0] {
            Token::Literal(c) => input.len() > 0 && input[0] == c && tokens_match(
                tokens.skip(1),
                subject,
                input.skip(1),
            ),
            Token::AnyChar => input.len() > 0 && tokens_match(
                tokens.skip(1),
                subject,
                input.skip(1),
            ),
            Token::AnyRun | Token::SegmentRun => exists|k: int|
                0 <= k <= input.len() && run_covers_all(tokens[0], subject, input.take(k))
                    && tokens_match(tokens.skip(1), subject, #[trigger] input.skip(k)),
        }
    }
}

/// Whether `input` matches the glob `pattern`.
pub open spec fn glob_matches(pattern: Seq<char>, subject: Subject, input: Seq<char>) -> bool {
    tokens_match(tokens(pattern), subject, input)
}

/// Whether the token is a wildcard.
pub open spec fn is_wildcard(token: Token) -> bool {
    !(token is Literal)
}

/// How many of the tokens are wildcards.
pub open spec fn count_wildcards(tokens: Seq<Token>) -> nat
    decreases tokens.len(),
{
    if tokens.len() == 0 {
        0
    } else {
        (if is_wildcard(tokens[0]) {
            1nat
        } else {
            0nat
        }) + count_wildcards(tokens.skip(1))
    }
}

/// The number of bytes that a token's own character takes up in UTF-8; none for a wildcard.
pub open spec fn literal_width(token: Token) -> nat {
    match token {
        Token::Literal(c) => encode_scalar(c as u32).len(),
        _ => 0,
    }
}

/// How many bytes of UTF-8 the literal characters among the tokens take up.
pub open spec fn literal_bytes(tokens: Seq<Token>) -> nat
    decreases tokens.len(),
{
    if tokens.len() == 0 {
        0
    } else {
        literal_width(tokens[0]) + literal_bytes(tokens.skip(1))
    }
}

/// The literals of a pattern take up no more bytes than the pattern itself.
proof fn lemma_literal_bytes_bound(pattern: Seq<char>)
    ensures
        literal_bytes(tokens(pattern)) <= encode_utf8(pattern).len(),
    decreases pattern.len(),
{
    if pattern.len() == 0 {
    } else if pattern.len() > 1 && pattern[0] == '*' && pattern[1] == '*' {
        let rest = pattern.skip(2);
        lemma_literal_bytes_bound(rest);
        assert((seq![Token::AnyRun] + tokens(rest)).skip(1) == tokens(rest));
        assert(pattern.drop_first().drop_first() == rest);
        reveal_with_fuel(encode_utf8, 3);
    } else {
        let rest = pattern.skip(1);
        lemma_literal_bytes_bound(rest);
        assert((seq![single_token(pattern[0])] + tokens(rest)).skip(1) == tokens(rest));
        assert(pattern.drop_first() == rest);
    }
}

/// A leading run token either covers nothing more, or covers the next character and goes on.
proof fn lemma_run_unrolls(tokens: Seq<Token>, subject: Subject, input: Seq<char>)
    requires
        tokens.len() > 0,
        tokens[0] is AnyRun || tokens[0] is SegmentRun,
    ensures
        tokens_match(tokens, subject, input) == (tokens_match(tokens.skip(1), subject, input) || (
        input.len() > 0 && run_covers(tokens[0], subject, input[0]) && tokens_match(
            tokens,
            subject,
            input.skip(1),
        ))),
{
    let rest = tokens.skip(1);
    if tokens_match(tokens, subject, input) {
        let k = choose|k: int|
            0 <= k <= input.len() && run_covers_all(tokens[0], subject, input.take(k))
                && tokens_match(rest, subject, #[trigger] input.skip(k));
        if k == 0 {
            assert(input.skip(0) == input);
        } else {
            assert(input.take(k)[0] == input[0]);
            let tail = input.skip(1);
            assert(tail.skip(k - 1) == input.skip(k));
            assert forall|i: int| 0 <= i < k - 1 implies run_covers(
                tokens[0],
                subject,
                #[trigger] tail.take(k - 1)[i],
            ) by {
                assert(input.take(k)[i + 1] == tail.take(k - 1)[i]);
            }
        }
    }
    if tokens_match(rest, subject, input) {
        assert(input.skip(0) == input);
        assert(tokens_match(rest, subject, input.skip(0)));
    }
    if input.len() > 0 && run_covers(tokens[0], subject, input[0]) && tokens_match(
        tokens,
        subject,
        input.skip(1),
    ) {
        let tail = input.skip(1);
        let k = choose|k: int|
            0 <= k <= tail.len() && run_covers_all(tokens[0], subject, tail.take(k))
                && tokens_match(rest, subject, #[trigger] tail.skip(k));
        assert(tail.skip(k) == input.skip(k + 1));
        assert forall|i: int| 0 <= i < k + 1 implies run_covers(
            tokens[0],
            subject,
            #[trigger] input.take(k + 1)[i],
        ) by {
            if i > 0 {
                assert(tail.take(k)[i - 1] == input.take(k + 1)[i]);
            }
        }
        assert(tokens_match(rest, subject, input.skip(k + 1)));
    }
}

/// Reads the tokens of a pattern.
pub fn tokenize(pattern: &str) -> (result: Vec<Token>)
    ensures
        result@ == tokens(pattern@),
{
    let chars = chars_of(pattern);
    let mut result: Vec<Token> = Vec::new();
    let mut i: usize = 0;
    assert(pattern@.skip(0) == pattern@);
    while i < chars.len()
        invariant
            i <= chars.len(),
            chars@ == pattern@,
            result@ + tokens(pattern@.skip(i as int)) == tokens(pattern@),
        decreases chars.len() - i,
    {
        let ghost left = pattern@.skip(i as int);
        if chars[i] == '*' && chars.len() - i > 1 && chars[i + 1] == '*' {
            assert(left.skip(2) == pattern@.skip(i + 2));
            result.push(Token::AnyRun);
            i = i + 2;
        } else {
            assert(left.skip(1) == pattern@.skip(i + 1));
            let token = if chars[i] == '*' {
                Token::SegmentRun
            } else if chars[i] == '?' {
                Token::AnyChar
            } else {
                Token::Literal(chars[i])
            };
            result.push(token);
            i = i + 1;
        }
    }
    assert(pattern@.skip(i as int).len() == 0);
    assert(result@ == tokens(pattern@));
    result
}

/// Turns the answers for the tokens after `token` into the answers for those from `token` on:
/// entry `j` of `row` says whether the tokens match the input from position `j`.
fn extend_row(
    row: &mut Vec<bool>,
    token: Token,
    subject: Subject,
    chars: &Vec<char>,
    Ghost(tail): Ghost<Seq<Token>>,
)
    requires
        tail.len() > 0,
        tail[0] == token,
        old(row)@.len() == chars@.len() + 1,
        forall|j: int|
            0 <= j <= chars@.len() ==> #[trigger] old(row)@[j] == tokens_match(
                tail.skip(1),
                subject,
                chars@.skip(j),
            ),
    ensures
        final(row)@.len() == chars@.len() + 1,
        forall|j: int|
            0 <= j <= chars@.len() ==> #[trigger] final(row)@[j] == tokens_match(
                tail,
                subject,
                chars@.skip(j),
            ),
{
    let n = chars.len();
    let ghost before = row@;
    match token {
        Token::AnyRun | Token::SegmentRun => {
            let mut j: usize = n;
            proof {
                lemma_run_unrolls(tail, subject, chars@.skip(n as int));
            }
            while j > 0
                invariant
                    j <= n,
                    n == chars@.len(),
                    row@.len() == n + 1,
                    before.len() == n + 1,
                    tail.len() > 0,
                    tail[0] == token,
                    token is AnyRun || token is SegmentRun,
                    forall|i: int|
                        0 <= i <= n ==> #[trigger] before[i] == tokens_match(
                            tail.skip(1),
                            subject,
                            chars@.skip(i),
                        ),
                    forall|i: int| 0 <= i < j ==> #[trigger] row@[i] == before[i],
                    forall|i: int|
                        j <= i <= n ==> #[trigger] row@[i] == tokens_match(
                            tail,
                            subject,
                            chars@.skip(i),
                        ),
                decreases j,
            {
                j = j - 1;
                let c = chars[j];
                let covered = match token {
                    Token::AnyRun => true,
                    _ => match subject {
                        Subject::Command => true,
                        Subject::Path => c != '/',
                    },
                };
                proof {
                    lemma_run_unrolls(tail, subject, chars@.skip(j as int));
                    assert(chars@.skip(j as int).skip(1) == chars@.skip(j + 1));
                }
                let value = row[j] || (covered && row[j + 1]);
                row.set(j, value);
            }
        },
        Token::AnyChar | Token::Literal(_) => {
            let mut j: usize = 0;
            while j < n
                invariant
                    j <= n,
                    n == chars@.len(),
                    row@.len() == n + 1,
                    before.len() == n + 1,
                    tail.len() > 0,
                    tail[0] == token,
                    token is AnyChar || token is Literal,
                    forall|i: int|
                        0 <= i <= n ==> #[trigger] before[i] == tokens_match(
                            tail.skip(1),
                            subject,
                            chars@.skip(i),
                        ),
                    forall|i: int| j <= i <= n ==> #[trigger] row@[i] == before[i],
                    forall|i: int|
                        0 <= i < j ==> #[trigger] row@[i] == tokens_match(
                            tail,
                            subject,
                            chars@.skip(i),
                        ),
                decreases n - j,
            {
                let fits = match token {
                    Token::Literal(c) => chars[j] == c,
                    _ => true,
                };
                proof {
                    assert(chars@.skip(j as int).skip(1) == chars@.skip(j + 1));
                }
                let value = fits && row[j + 1];
                row.set(j, value);
                j = j + 1;
            }
            assert(chars@.skip(n as int).len() == 0);
            row.set(n, false);
        },
    }
}

/// Whether `input` matches the tokens.
pub fn match_tokens(pattern: &Vec<Token>, subject: Subject, input: &str) -> (matched: bool)
    ensures
        matched == tokens_match(pattern@, subject, input@),
{
    let chars = chars_of(input);
    let n = chars.len();
    let mut row: Vec<bool> = Vec::new();
    let mut j: usize = 0;
    while j < n
        invariant
            j <= n,
            row@.len() == j,
            forall|i: int| 0 <= i < j ==> !#[trigger] row@[i],
        decreases n - j,
    {
        row.push(false);
        j = j + 1;
    }
    row.push(true);
    let mut i: usize = pattern.len();
    assert forall|k: int| 0 <= k <= n implies #[trigger] row@[k] == tokens_match(
        pattern@.skip(i as int),
        subject,
        chars@.skip(k),
    ) by {
        assert(chars@.skip(k).len() == n - k);
    }
    while i > 0
        invariant
            i <= pattern@.len(),
            row@.len() == chars@.len() + 1,
            forall|k: int|
                0 <= k <= chars@.len() ==> #[trigger] row@[k] == tokens_match(
                    pattern@.skip(i as int),
                    subject,
                    chars@.skip(k),
                ),
        decreases i,
    {
        i = i - 1;
        let ghost tail = pattern@.skip(i as int);
        assert(tail.skip(1) == pattern@.skip(i + 1));
        extend_row(&mut row, pattern[i], subject, &chars, Ghost(tail));
    }
    assert(pattern@.skip(0) == pattern@);
    assert(chars@.skip(0) == input@);
    row[0]
}

/// How many bytes of UTF-8 the literal characters of a pattern take up.
pub fn literal_length(pattern: &str) -> (length: usize)
    ensures
        length == literal_bytes(tokens(pattern@)),
{
    let list = tokenize(pattern);
    let bytes = pattern.as_bytes();
    let limit: usize = bytes.len();
    proof {
        lemma_literal_bytes_bound(pattern@);
    }
    let mut length: usize = 0;
    let mut i: usize = 0;
    assert(list@.skip(0) == list@);
    while i < list.len()
        invariant
            i <= list@.len(),
            length + literal_bytes(list@.skip(i as int)) == literal_bytes(list@),
            literal_bytes(list@) <= limit,
        decreases list@.len() - i,
    {
        let ghost left = list@.skip(i as int);
        assert(left.skip(1) == list@.skip(i + 1));
        assert(left[0] == list@[i as int]);
        match list[i] {
            Token::Literal(c) => {
                length = length + char_width(c);
            },
            _ => {},
        }
        i = i + 1;
    }
    length
}

/// How many wildcards a pattern holds.
pub fn wildcard_count(pattern: &str) -> (count: usize)
    ensures
        count == count_wildcards(tokens(pattern@)),
{
    let list = tokenize(pattern);
    let mut count: usize = 0;
    let mut i: usize = 0;
    assert(list@.skip(0) == list@);
    while i < list.len()
        invariant
            i <= list@.len(),
            count <= i,
            count + count_wildcards(list@.skip(i as int)) == count_wildcards(list@),
        decreases list@.len() - i,
    {
        let ghost left = list@.skip(i as int);
        assert(left.skip(1) == list@.skip(i + 1));
        assert(left[0] == list@[i as int]);
        match list[i] {
            Token::Literal(_) => {},
            _ => {
                count = count + 1;
            },
        }
        i = i + 1;
    }
    count
}

/// Whether no character of the pattern is a wildcard.
pub open spec fn is_literal(pattern: Seq<char>) -> bool {
    forall|i: int| 0 <= i < pattern.len() ==> #[trigger] pattern[i] != '*' && pattern[i] != '?'
}

/// The pattern of a single `*`.
pub open spec fn star() -> Seq<char> {
    seq!['*']
}

/// The pattern `**`.
pub open spec fn double_star() -> Seq<char> {
    seq!['*', '*']
}

/// A literal prefix contributes one literal token per character.
proof fn lemma_literal_prefix_step(prefix: Seq<char>, rest: Seq<char>)
    requires
        is_literal(prefix),
        prefix.len() > 0,
    ensures
        tokens(prefix + rest) == seq![Token::Literal(prefix[0])] + tokens(prefix.skip(1) + rest),
        (seq![Token::Literal(prefix[0])] + tokens(prefix.skip(1) + rest)).skip(1) == tokens(
            prefix.skip(1) + rest,
        ),
        is_literal(prefix.skip(1)),
{
    let whole = prefix + rest;
    assert(whole[0] == prefix[0]);
    assert(whole.skip(1) == prefix.skip(1) + rest);
}

/// Matching a pattern that begins with literal characters is matching those characters and
/// then the rest.
pub proof fn law_literal_prefix(
    prefix: Seq<char>,
    rest: Seq<char>,
    subject: Subject,
    input: Seq<char>,
)
    requires
        is_literal(prefix),
    ensures
        glob_matches(prefix + rest, subject, input) <==> {
            &&& prefix.len() <= input.len()
            &&& input.take(prefix.len() as int) == prefix
            &&& glob_matches(rest, subject, input.skip(prefix.len() as int))
        },
    decreases prefix.len(),
{
    let n = prefix.len() as int;
    if n == 0 {
        assert(prefix + rest == rest);
        assert(input.skip(0) == input);
        assert(input.take(0) == prefix);
    } else {
        lemma_literal_prefix_step(prefix, rest);
        if input.len() > 0 {
            let tail = input.skip(1);
            law_literal_prefix(prefix.skip(1), rest, subject, tail);
            if n <= input.len() {
                assert(tail.skip(n - 1) == input.skip(n));
                if input.take(n) == prefix {
                    assert(input.take(n)[0] == prefix[0]);
                    assert(tail.take(n - 1) == prefix.skip(1)) by {
                        assert forall|i: int| 0 <= i < n - 1 implies tail.take(n - 1)[i]
                            == prefix.skip(1)[i] by {
                            assert(input.take(n)[i + 1] == prefix[i + 1]);
                        }
                    }
                }
                if input[0] == prefix[0] && tail.take(n - 1) == prefix.skip(1) {
                    assert(input.take(n) == prefix) by {
                        assert forall|i: int| 0 <= i < n implies input.take(n)[i] == prefix[i] by {
                            if i > 0 {
                                assert(tail.take(n - 1)[i - 1] == prefix.skip(1)[i - 1]);
                            }
                        }
                    }
                }
            }
        }
    }
}

/// A pattern without wildcards matches itself and nothing else.
pub proof fn law_literal_matches_only_itself(
    pattern: Seq<char>,
    subject: Subject,
    input: Seq<char>,
)
    requires
        is_literal(pattern),
    ensures
        glob_matches(pattern, subject, input) <==> pattern == input,
{
    let none: Seq<char> = seq![];
    law_literal_prefix(pattern, none, subject, input);
    assert(pattern + none == pattern);
    assert(tokens(none).len() == 0);
    if pattern.len() <= input.len() {
        assert(input.skip(pattern.len() as int).len() == input.len() - pattern.len());
        if pattern.len() == input.len() {
            assert(input.take(pattern.len() as int) == input);
        }
    }
}

/// A run token on its own matches exactly the inputs that it may cover.
proof fn lemma_lone_run(token: Token, subject: Subject, input: Seq<char>)
    requires
        token is AnyRun || token is SegmentRun,
    ensures
        tokens_match(seq![token], subject, input) <==> run_covers_all(token, subject, input),
{
    reveal_with_fuel(tokens_match, 2);
    let list = seq![token];
    assert(list.skip(1).len() == 0);
    let n = input.len() as int;
    assert(input.take(n) == input);
    assert(input.skip(n).len() == 0);
    if tokens_match(list, subject, input) {
        let k = choose|k: int|
            0 <= k <= input.len() && run_covers_all(list[0], subject, input.take(k))
                && tokens_match(list.skip(1), subject, #[trigger] input.skip(k));
        assert(input.skip(k).len() == n - k);
    }
}

/// `**` matches every input.
pub proof fn law_double_star_matches_all(subject: Subject, input: Seq<char>)
    ensures
        glob_matches(double_star(), subject, input),
{
    assert(double_star().skip(2).len() == 0);
    reveal_with_fuel(tokens, 2);
    assert(tokens(double_star()) == seq![Token::AnyRun]);
    lemma_lone_run(Token::AnyRun, subject, input);
}

/// `*` matches every command, and every path that holds no `/`.
pub proof fn law_star_stays_within_segment(subject: Subject, input: Seq<char>)
    ensures
        glob_matches(star(), subject, input) <==> (subject == Subject::Command
            || !input.contains('/')),
{
    assert(star().skip(1).len() == 0);
    reveal_with_fuel(tokens, 2);
    assert(tokens(star()) == seq![Token::SegmentRun]);
    lemma_lone_run(Token::SegmentRun, subject, input);
    if input.contains('/') {
        let i = choose|i: int| 0 <= i < input.len() && input[i] == '/';
        assert(!run_covers(Token::SegmentRun, Subject::Path, input[i]));
    }
}

/// `?` matches exactly the inputs of one character.
pub proof fn law_question_matches_one(subject: Subject, input: Seq<char>)
    ensures
        glob_matches(seq!['?'], subject, input) <==> input.len() == 1,
{
    let pattern = seq!['?'];
    assert(pattern.skip(1).len() == 0);
    reveal_with_fuel(tokens, 2);
    reveal_with_fuel(tokens_match, 2);
    assert(tokens(pattern) == seq![Token::AnyChar]);
    assert(tokens(pattern).skip(1).len() == 0);
    if input.len() > 0 {
        assert(input.skip(1).len() == input.len() - 1);
    }
}

/// A literal prefix followed by `**` matches exactly the inputs that begin with the prefix.
pub proof fn law_prefix_pattern(prefix: Seq<char>, subject: Subject, input: Seq<char>)
    requires
        is_literal(prefix),
    ensures
        glob_matches(prefix + double_star(), subject, input) <==> prefix.is_prefix_of(input),
{
    law_literal_prefix(prefix, double_star(), subject, input);
    if prefix.len() <= input.len() {
        law_double_star_matches_all(subject, input.skip(prefix.len() as int));
    }
}

/// What matches as a path matches as a command.
pub proof fn law_path_match_is_command_match(pattern: Seq<char>, input: Seq<char>)
    ensures
        glob_matches(pattern, Subject::Path, input) ==> glob_matches(
            pattern,
            Subject::Command,
            input,
        ),
{
    lemma_command_reaches_further(tokens(pattern), input);
}

proof fn lemma_command_reaches_further(tokens: Seq<Token>, input: Seq<char>)
    ensures
        tokens_match(tokens, Subject::Path, input) ==> tokens_match(
            tokens,
            Subject::Command,
            input,
        ),
    decreases tokens.len(),
{
    if tokens.len() > 0 && tokens_match(tokens, Subject::Path, input) {
        let rest = tokens.skip(1);
        match tokens[0] {
            Token::Literal(_) | Token::AnyChar => {
                lemma_command_reaches_further(rest, input.skip(1));
            },
            _ => {
                let k = choose|k: int|
                    0 <= k <= input.len() && run_covers_all(
                        tokens[0],
                        Subject::Path,
                        input.take(k),
                    ) && tokens_match(rest, Subject::Path, #[trigger] input.skip(k));
                lemma_command_reaches_further(rest, input.skip(k));
            },
        }
    }
}

/// Literal characters before a pattern add their bytes to its literal bytes, and no wildcard.
pub proof fn law_prefix_adds_literal_bytes(prefix: Seq<char>, rest: Seq<char>)
    requires
        is_literal(prefix),
    ensures
        count_wildcards(tokens(prefix + rest)) == count_wildcards(tokens(rest)),
        literal_bytes(tokens(prefix + rest)) == encode_utf8(prefix).len() + literal_bytes(
            tokens(rest),
        ),
    decreases prefix.len(),
{
    if prefix.len() == 0 {
        assert(prefix + rest == rest);
    } else {
        lemma_literal_prefix_step(prefix, rest);
        law_prefix_adds_literal_bytes(prefix.skip(1), rest);
        assert(prefix.skip(1) == prefix.drop_first());
    }
}

/// A pattern without wildcards has as many literal bytes as it has bytes, and no wildcard.
pub proof fn law_literal_specificity(pattern: Seq<char>)
    requires
        is_literal(pattern),
    ensures
        count_wildcards(tokens(pattern)) == 0,
        literal_bytes(tokens(pattern)) == encode_utf8(pattern).len(),
{
    let none: Seq<char> = seq![];
    assert(pattern + none == pattern);
    law_prefix_adds_literal_bytes(pattern, none);
    assert(tokens(none).len() == 0);
}

/// The tokens of a pattern, one step at a time: two stars are one token, and every other
/// character is a token of its own.
pub proof fn law_tokens_of_a_pattern(c: char, rest: Seq<char>)
    ensures
        tokens(seq![]) == Seq::<Token>::empty(),
        tokens(seq!['*', '*'] + rest) == seq![Token::AnyRun] + tokens(rest),
        rest.len() == 0 || rest[0] != '*' ==> tokens(seq!['*'] + rest) == seq![Token::SegmentRun]
            + tokens(rest),
        tokens(seq!['?'] + rest) == seq![Token::AnyChar] + tokens(rest),
        c != '*' && c != '?' ==> tokens(seq![c] + rest) == seq![Token::Literal(c)] + tokens(rest),
{
    let two = seq!['*', '*'] + rest;
    assert(two[0] == '*' && two[1] == '*');
    assert(two.skip(2) == rest);
    let one = seq!['*'] + rest;
    assert(one.skip(1) == rest);
    if rest.len() > 0 {
        assert(one[1] == rest[0]);
    }
    assert((seq!['?'] + rest).skip(1) == rest);
    assert((seq![c] + rest).skip(1) == rest);
}

/// What a list of tokens matches, one token at a time: a literal its character, `?` one
/// character, `**` any beginning, and `*` a beginning that on a path holds no `/`.
pub proof fn law_tokens_match_in_turn(
    c: char,
    rest: Seq<Token>,
    subject: Subject,
    input: Seq<char>,
)
    ensures
        tokens_match(seq![], subject, input) <==> input.len() == 0,
        tokens_match(seq![Token::Literal(c)] + rest, subject, input) <==> input.len() > 0
            && input[0] == c && tokens_match(rest, subject, input.skip(1)),
        tokens_match(seq![Token::AnyChar] + rest, subject, input) <==> input.len() > 0
            && tokens_match(rest, subject, input.skip(1)),
        tokens_match(seq![Token::AnyRun] + rest, subject, input) <==> exists|k: int|
            0 <= k <= input.len() && tokens_match(rest, subject, #[trigger] input.skip(k)),
        tokens_match(seq![Token::SegmentRun] + rest, subject, input) <==> exists|k: int|
            0 <= k <= input.len() && (subject == Subject::Command || forall|i: int|
                0 <= i < k ==> #[trigger] input[i] != '/') && tokens_match(
                rest,
                subject,
                #[trigger] input.skip(k),
            ),
{
    assert((seq![Token::Literal(c)] + rest).skip(1) == rest);
    assert((seq![Token::AnyChar] + rest).skip(1) == rest);
    let any = seq![Token::AnyRun] + rest;
    let some = seq![Token::SegmentRun] + rest;
    assert(any.skip(1) == rest);
    assert(some.skip(1) == rest);
    assert forall|k: int| 0 <= k <= input.len() implies run_covers_all(
        any[0],
        subject,
        #[trigger] input.take(k),
    ) by {}
    assert forall|k: int| 0 <= k <= input.len() implies (run_covers_all(
        some[0],
        subject,
        #[trigger] input.take(k),
    ) <==> (subject == Subject::Command || forall|i: int|
        0 <= i < k ==> #[trigger] input[i] != '/')) by {
        if run_covers_all(some[0], subject, input.take(k)) && subject == Subject::Path {
            assert forall|i: int| 0 <= i < k implies #[trigger] input[i] != '/' by {
                assert(run_covers(some[0], subject, input.take(k)[i]));
            }
        }
    }
    if exists|k: int|
        0 <= k <= input.len() && tokens_match(rest, subject, #[trigger] input.skip(k)) {
        let k = choose|k: int|
            0 <= k <= input.len() && tokens_match(rest, subject, #[trigger] input.skip(k));
        assert(run_covers_all(any[0], subject, input.take(k)));
        assert(tokens_match(any.skip(1), subject, input.skip(k)));
    }
    if exists|k: int|
        0 <= k <= input.len() && (subject == Subject::Command || forall|i: int|
            0 <= i < k ==> #[trigger] input[i] != '/') && tokens_match(
            rest,
            subject,
            #[trigger] input.skip(k),
        ) {
        let k = choose|k: int|
            0 <= k <= input.len() && (subject == Subject::Command || forall|i: int|
                0 <= i < k ==> #[trigger] input[i] != '/') && tokens_match(
                rest,
                subject,
                #[trigger] input.skip(k),
            );
        assert(run_covers_all(some[0], subject, input.take(k)));
        assert(tokens_match(some.skip(1), subject, input.skip(k)));
    }
}

/// The empty pattern matches the empty input alone, and a character that is no wildcard matches
/// itself and then the rest.
pub proof fn law_character_then_rest(
    c: char,
    rest: Seq<char>,
    subject: Subject,
    input: Seq<char>,
)
    requires
        c != '*',
        c != '?',
    ensures
        glob_matches(seq![], subject, input) <==> input.len() == 0,
        glob_matches(seq![c] + rest, subject, input) <==> input.len() > 0 && input[0] == c
            && glob_matches(rest, subject, input.skip(1)),
{
    law_tokens_of_a_pattern(c, rest);
    law_tokens_match_in_turn(c, tokens(rest), subject, input);
}

/// `?` and a rest match one character of any kind, `/` included, and then the rest.
pub proof fn law_question_then_rest(rest: Seq<char>, subject: Subject, input: Seq<char>)
    ensures
        glob_matches(seq!['?'] + rest, subject, input) <==> input.len() > 0 && glob_matches(
            rest,
            subject,
            input.skip(1),
        ),
{
    law_tokens_of_a_pattern('?', rest);
    law_tokens_match_in_turn('?', tokens(rest), subject, input);
}

/// `**` and a rest match exactly if the rest matches after some beginning, whatever it holds.
pub proof fn law_double_star_then_rest(rest: Seq<char>, subject: Subject, input: Seq<char>)
    ensures
        glob_matches(seq!['*', '*'] + rest, subject, input) <==> exists|k: int|
            0 <= k <= input.len() && glob_matches(rest, subject, #[trigger] input.skip(k)),
{
    law_tokens_of_a_pattern('*', rest);
    law_tokens_match_in_turn('*', tokens(rest), subject, input);
    if glob_matches(seq!['*', '*'] + rest, subject, input) {
        let k = choose|k: int|
            0 <= k <= input.len() && tokens_match(tokens(rest), subject, #[trigger] input.skip(k));
        assert(glob_matches(rest, subject, input.skip(k)));
    }
    if exists|k: int|
        0 <= k <= input.len() && glob_matches(rest, subject, #[trigger] input.skip(k)) {
        let k = choose|k: int|
            0 <= k <= input.len() && glob_matches(rest, subject, #[trigger] input.skip(k));
        assert(tokens_match(tokens(rest), subject, input.skip(k)));
    }
}

/// A single `*` and a rest match exactly if the rest matches after some beginning, which on a
/// path holds no `/`.
pub proof fn law_star_then_rest(rest: Seq<char>, subject: Subject, input: Seq<char>)
    requires
        rest.len() == 0 || rest[0] != '*',
    ensures
        glob_matches(seq!['*'] + rest, subject, input) <==> exists|k: int|
            0 <= k <= input.len() && (subject == Subject::Command || forall|i: int|
                0 <= i < k ==> #[trigger] input[i] != '/') && glob_matches(
                rest,
                subject,
                #[trigger] input.skip(k),
            ),
{
    law_tokens_of_a_pattern('*', rest);
    law_tokens_match_in_turn('*', tokens(rest), subject, input);
    if glob_matches(seq!['*'] + rest, subject, input) {
        let k = choose|k: int|
            0 <= k <= input.len() && (subject == Subject::Command || forall|i: int|
                0 <= i < k ==> #[trigger] input[i] != '/') && tokens_match(
                tokens(rest),
                subject,
                #[trigger] input.skip(k),
            );
        assert(glob_matches(rest, subject, input.skip(k)));
    }
    if exists|k: int|
        0 <= k <= input.len() && (subject == Subject::Command || forall|i: int|
            0 <= i < k ==> #[trigger] input[i] != '/') && glob_matches(
            rest,
            subject,
            #[trigger] input.skip(k),
        ) {
        let k = choose|k: int|
            0 <= k <= input.len() && (subject == Subject::Command || forall|i: int|
                0 <= i < k ==> #[trigger] input[i] != '/') && glob_matches(
                rest,
                subject,
                #[trigger] input.skip(k),
            );
        assert(tokens_match(tokens(rest), subject, input.skip(k)));
    }
}

/// Wildcards and literal bytes are counted along the pattern: `**`, `*` and `?` are one wildcard
/// each, and every other character adds the bytes of its UTF-8 encoding.
pub proof fn law_counts_along_a_pattern(c: char, rest: Seq<char>)
    ensures
        count_wildcards(tokens(seq![])) == 0,
        literal_bytes(tokens(seq![])) == 0,
        count_wildcards(tokens(seq!['*', '*'] + rest)) == 1 + count_wildcards(tokens(rest)),
        literal_bytes(tokens(seq!['*', '*'] + rest)) == literal_bytes(tokens(rest)),
        rest.len() == 0 || rest[0] != '*' ==> count_wildcards(tokens(seq!['*'] + rest)) == 1
            + count_wildcards(tokens(rest)) && literal_bytes(tokens(seq!['*'] + rest))
            == literal_bytes(tokens(rest)),
        count_wildcards(tokens(seq!['?'] + rest)) == 1 + count_wildcards(tokens(rest)),
        literal_bytes(tokens(seq!['?'] + rest)) == literal_bytes(tokens(rest)),
        c != '*' && c != '?' ==> count_wildcards(tokens(seq![c] + rest)) == count_wildcards(
            tokens(rest),
        ) && literal_bytes(tokens(seq![c] + rest)) == encode_utf8(seq![c]).len() + literal_bytes(
            tokens(rest),
        ),
{
    law_tokens_of_a_pattern(c, rest);
    let more = tokens(rest);
    assert((seq![Token::AnyRun] + more).skip(1) == more);
    assert((seq![Token::SegmentRun] + more).skip(1) == more);
    assert((seq![Token::AnyChar] + more).skip(1) == more);
    assert((seq![Token::Literal(c)] + more).skip(1) == more);
    reveal_with_fuel(encode_utf8, 2);
    assert(seq![c].drop_first() == Seq::<char>::empty());
}

/// A pattern is literal if it holds neither `*` nor `?`; the two catch-alls are `*` and `**`.
pub proof fn law_wildcard_characters(pattern: Seq<char>)
    ensures
        is_literal(pattern) <==> !pattern.contains('*') && !pattern.contains('?'),
        star() == seq!['*'],
        double_star() == seq!['*', '*'],
{
    if !pattern.contains('*') && !pattern.contains('?') {
        assert forall|i: int| 0 <= i < pattern.len() implies #[trigger] pattern[i] != '*'
            && pattern[i] != '?' by {
            assert(pattern.contains(pattern[i]));
        }
    }
}

} // verus!
