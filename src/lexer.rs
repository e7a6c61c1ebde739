use crate::token::{Token, TokenKind};
use vstd::prelude::*;

verus! {

broadcast use vstd::string::group_string_axioms;

/// A token as the lexer's contract sees it: kind, text, line.
pub type TokenView = (TokenKind, Seq<char>, int);

pub open spec fn is_digit(c: char) -> bool {
    '0' <= c <= '9'
}

pub open spec fn is_alpha(c: char) -> bool {
    ('a' <= c <= 'z') || ('A' <= c <= 'Z') || c == '_'
}

pub open spec fn is_alphanumeric(c: char) -> bool {
    is_alpha(c) || is_digit(c)
}

/// The end of the run of digits that starts at `i`.
pub open spec fn digits_end(s: Seq<char>, i: int) -> int
    decreases s.len() - i,
{
    if 0 <= i < s.len() && is_digit(s[i]) {
        digits_end(s, i + 1)
    } else {
        i
    }
}

/// The end of a numeric literal that starts at `i`: digits, then optionally
/// a `.` and more digits, where at least one digit follows the `.`.
pub open spec fn number_end(s: Seq<char>, i: int) -> int {
    let j = digits_end(s, i);
    if 0 <= j && j + 1 < s.len() && s[j] == '.' && is_digit(s[j + 1]) {
        digits_end(s, j + 1)
    } else {
        j
    }
}

/// The end of the run of letters, digits and underscores that starts at `i`.
pub open spec fn word_end(s: Seq<char>, i: int) -> int
    decreases s.len() - i,
{
    if 0 <= i < s.len() && is_alphanumeric(s[i]) {
        word_end(s, i + 1)
    } else {
        i
    }
}

/// The first position at or after `i` that holds `c`, or the length.
pub open spec fn find_char(s: Seq<char>, i: int, c: char) -> int
    decreases s.len() - i,
{
    if 0 <= i < s.len() && s[i] != c {
        find_char(s, i + 1, c)
    } else {
        i
    }
}

/// How many newlines `s` holds.
pub open spec fn newlines(s: Seq<char>) -> int
    decreases s.len(),
{
    if s.len() == 0 {
        0
    } else {
        newlines(s.drop_last()) + if s.last() == '\n' {
            1int
        } else {
            0int
        }
    }
}

/// The kind of a word: a keyword's own kind, else an identifier.
pub open spec fn word_kind(w: Seq<char>) -> TokenKind {
    if w == seq!['a', 'n', 'd'] {
        TokenKind::And
    } else if w == seq!['c', 'l', 'a', 's', 's'] {
        TokenKind::Class
    } else if w == seq!['e', 'l', 's', 'e'] {
        TokenKind::Else
    } else if w == seq!['f', 'a', 'l', 's', 'e'] {
        TokenKind::False
    } else if w == seq!['f', 'o', 'r'] {
        TokenKind::For
    } else if w == seq!['f', 'u', 'n'] {
        TokenKind::Fun
    } else if w == seq!['i', 'f'] {
        TokenKind::If
    } else if w == seq!['n', 'i', 'l'] {
        TokenKind::Nil
    } else if w == seq!['o', 'r'] {
        TokenKind::Or
    } else if w == seq!['p', 'r', 'i', 'n', 't'] {
        TokenKind::Print
    } else if w == seq!['r', 'e', 't', 'u', 'r', 'n'] {
        TokenKind::Return
    } else if w == seq!['s', 'u', 'p', 'e', 'r'] {
        TokenKind::Super
    } else if w == seq!['t', 'h', 'i', 's'] {
        TokenKind::This
    } else if w == seq!['t', 'r', 'u', 'e'] {
        TokenKind::True
    } else if w == seq!['v', 'a', 'r'] {
        TokenKind::Var
    } else if w == seq!['w', 'h', 'i', 'l', 'e'] {
        TokenKind::While
    } else {
        TokenKind::Identifier
    }
}

/// The operator or punctuation at `i` and its length, longest match first;
/// length 0 where `s[i]` is none of them.
pub open spec fn operator_at(s: Seq<char>, i: int) -> (TokenKind, int) {
    let c = s[i];
    let eq_next = i + 1 < s.len() && s[i + 1] == '=';
    if c == '(' {
        (TokenKind::LeftParen, 1)
    } else if c == ')' {
        (TokenKind::RightParen, 1)
    } else if c == '{' {
        (TokenKind::LeftBrace, 1)
    } else if c == '}' {
        (TokenKind::RightBrace, 1)
    } else if c == ',' {
        (TokenKind::Comma, 1)
    } else if c == '.' {
        (TokenKind::Dot, 1)
    } else if c == '-' {
        (TokenKind::Minus, 1)
    } else if c == '+' {
        (TokenKind::Plus, 1)
    } else if c == ';' {
        (TokenKind::Semicolon, 1)
    } else if c == '/' {
        (TokenKind::Slash, 1)
    } else if c == '*' {
        (TokenKind::Star, 1)
    } else if c == '!' {
        if eq_next {
            (TokenKind::BangEqual, 2)
        } else {
            (TokenKind::Bang, 1)
        }
    } else if c == '=' {
        if eq_next {
            (TokenKind::EqualEqual, 2)
        } else {
            (TokenKind::Equal, 1)
        }
    } else if c == '<' {
        if eq_next {
            (TokenKind::LessEqual, 2)
        } else {
            (TokenKind::Less, 1)
        }
    } else if c == '>' {
        if eq_next {
            (TokenKind::GreaterEqual, 2)
        } else {
            (TokenKind::Greater, 1)
        }
    } else {
        (TokenKind::Eof, 0)
    }
}

/// The tokens of `s` from position `i`, with `line` the line at `i`.
/// Whitespace and `//` comments are skipped, a newline moves to the next
/// line, and a character that starts no token is skipped. A string runs to
/// its closing quote, or to the end of the source, unterminated. The last
/// token is the single end-of-input token.
pub open spec fn scan(s: Seq<char>, i: int, line: int) -> Seq<TokenView>
    decreases s.len() - i,
{
    if i < 0 || i >= s.len() {
        seq![(TokenKind::Eof, Seq::<char>::empty(), line)]
    } else {
        let c = s[i];
        if c == '\n' {
            scan(s, i + 1, line + 1)
        } else if c == ' ' || c == '\r' || c == '\t' {
            scan(s, i + 1, line)
        } else if c == '/' && i + 1 < s.len() && s[i + 1] == '/' {
            let j = find_char(s, i, '\n');
            if i < j <= s.len() {
                scan(s, j, line)
            } else {
                scan(s, i + 1, line)
            }
        } else if c == '"' {
            let j = find_char(s, i + 1, '"');
            let text = s.subrange(i + 1, j);
            let after = line + newlines(text);
            if i < j < s.len() {
                seq![(TokenKind::Str, text, line)] + scan(s, j + 1, after)
            } else {
                seq![(TokenKind::UnterminatedStr, text, line), (TokenKind::Eof, Seq::<char>::empty(), after)]
            }
        } else if is_digit(c) {
            let j = number_end(s, i);
            if i < j <= s.len() {
                seq![(TokenKind::Number, s.subrange(i, j), line)] + scan(s, j, line)
            } else {
                scan(s, i + 1, line)
            }
        } else if is_alpha(c) {
            let j = word_end(s, i);
            if i < j <= s.len() {
                let w = s.subrange(i, j);
                seq![(word_kind(w), w, line)] + scan(s, j, line)
            } else {
                scan(s, i + 1, line)
            }
        } else {
            let (k, n) = operator_at(s, i);
            if n > 0 && i + n <= s.len() {
                seq![(k, s.subrange(i, i + n), line)] + scan(s, i + n, line)
            } else {
                scan(s, i + 1, line)
            }
        }
    }
}

pub open spec fn views(ts: Seq<Token>) -> Seq<TokenView> {
    ts.map_values(|t: Token| t@)
}

proof fn lemma_scan_ends_with_eof(s: Seq<char>, i: int, line: int)
    ensures
        scan(s, i, line).len() > 0,
        scan(s, i, line).last().0 == TokenKind::Eof,
    decreases s.len() - i,
{
    if 0 <= i < s.len() {
        let c = s[i];
        if c == '\n' {
            lemma_scan_ends_with_eof(s, i + 1, line + 1);
        } else if c == ' ' || c == '\r' || c == '\t' {
            lemma_scan_ends_with_eof(s, i + 1, line);
        } else if c == '/' && i + 1 < s.len() && s[i + 1] == '/' {
            let j = find_char(s, i, '\n');
            if i < j <= s.len() {
                lemma_scan_ends_with_eof(s, j, line);
            } else {
                lemma_scan_ends_with_eof(s, i + 1, line);
            }
        } else if c == '"' {
            let j = find_char(s, i + 1, '"');
            let after = line + newlines(s.subrange(i + 1, j));
            if i < j < s.len() {
                lemma_scan_ends_with_eof(s, j + 1, after);
            }
        } else if is_digit(c) {
            let j = number_end(s, i);
            if i < j <= s.len() {
                lemma_scan_ends_with_eof(s, j, line);
            } else {
                lemma_scan_ends_with_eof(s, i + 1, line);
            }
        } else if is_alpha(c) {
            let j = word_end(s, i);
            if i < j <= s.len() {
                lemma_scan_ends_with_eof(s, j, line);
            } else {
                lemma_scan_ends_with_eof(s, i + 1, line);
            }
        } else {
            let (k, n) = operator_at(s, i);
            if n > 0 && i + n <= s.len() {
                lemma_scan_ends_with_eof(s, i + n, line);
            } else {
                lemma_scan_ends_with_eof(s, i + 1, line);
            }
        }
    }
}

proof fn lemma_views_push(a: Seq<Token>, tk: Token, rest: Seq<TokenView>)
    ensures
        views(a.push(tk)) + rest == views(a) + (seq![tk@] + rest),
{
    assert(views(a.push(tk)) =~= views(a).push(tk@));
    assert(views(a).push(tk@) + rest =~= views(a) + (seq![tk@] + rest));
}

/// The characters of `s`, in order.
fn chars_of(s: &str) -> (r: Vec<char>)
    ensures
        r@ == s@,
{
    let mut v: Vec<char> = Vec::new();
    for c in it: s.chars()
        invariant
            it.seq() == s@,
            v@ == it.seq().take(it.index() as int),
    {
        proof {
            assert(it.seq().take(it.index() as int + 1) =~= v@.push(c));
        }
        v.push(c);
    }
    proof {
        assert(v@ =~= s@);
    }
    v
}

/// Relies on `FromIterator<&char>` for `String`: the string made of the
/// characters of `s`, in order.
#[verifier::external_body]
fn string_of(s: &[char]) -> (r: String)
    ensures
        r@ == s@,
{
    String::from_iter(s)
}

/// The characters of `s[from..to]` as a string.
fn text_between(s: &Vec<char>, from: usize, to: usize) -> (r: String)
    requires
        from <= to <= s@.len(),
    ensures
        r@ == s@.subrange(from as int, to as int),
{
    string_of(vstd::slice::slice_subrange(s.as_slice(), from, to))
}

fn is_digit_exec(c: char) -> (r: bool)
    ensures
        r == is_digit(c),
{
    '0' <= c && c <= '9'
}

fn is_alpha_exec(c: char) -> (r: bool)
    ensures
        r == is_alpha(c),
{
    ('a' <= c && c <= 'z') || ('A' <= c && c <= 'Z') || c == '_'
}

fn digits_end_exec(s: &Vec<char>, i: usize) -> (r: usize)
    requires
        i <= s.len(),
    ensures
        r == digits_end(s@, i as int),
        i <= r <= s.len(),
        i < s.len() && is_digit(s@[i as int]) ==> i < r,
{
    let mut j = i;
    while j < s.len() && is_digit_exec(s[j])
        invariant
            i <= j <= s.len(),
            digits_end(s@, i as int) == digits_end(s@, j as int),
        decreases s.len() - j,
    {
        j = j + 1;
    }
    j
}

fn number_end_exec(s: &Vec<char>, i: usize) -> (r: usize)
    requires
        i < s.len(),
        is_digit(s@[i as int]),
    ensures
        r == number_end(s@, i as int),
        i < r <= s.len(),
{
    let j = digits_end_exec(s, i);
    if s.len() - j > 1 && s[j] == '.' && is_digit_exec(s[j + 1]) {
        digits_end_exec(s, j + 1)
    } else {
        j
    }
}

fn word_end_exec(s: &Vec<char>, i: usize) -> (r: usize)
    requires
        i < s.len(),
        is_alpha(s@[i as int]),
    ensures
        r == word_end(s@, i as int),
        i < r <= s.len(),
{
    let mut j = i;
    while j < s.len() && (is_alpha_exec(s[j]) || is_digit_exec(s[j]))
        invariant
            i <= j <= s.len(),
            j == i ==> is_alpha(s@[i as int]),
            word_end(s@, i as int) == word_end(s@, j as int),
        decreases s.len() - j,
    {
        j = j + 1;
    }
    j
}

fn find_char_exec(s: &Vec<char>, i: usize, c: char) -> (r: usize)
    requires
        i <= s.len(),
    ensures
        r == find_char(s@, i as int, c),
        i <= r <= s.len(),
        i < s.len() && s@[i as int] != c ==> i < r,
{
    let mut j = i;
    while j < s.len() && s[j] != c
        invariant
            i <= j <= s.len(),
            find_char(s@, i as int, c) == find_char(s@, j as int, c),
        decreases s.len() - j,
    {
        j = j + 1;
    }
    j
}

fn count_newlines(s: &Vec<char>, from: usize, to: usize) -> (r: usize)
    requires
        from <= to <= s.len(),
    ensures
        r == newlines(s@.subrange(from as int, to as int)),
        r <= to - from,
{
    let mut k = from;
    let mut n: usize = 0;
    while k < to
        invariant
            from <= k <= to <= s.len(),
            n == newlines(s@.subrange(from as int, k as int)),
            n <= k - from,
        decreases to - k,
    {
        assert(s@.subrange(from as int, k + 1).drop_last() =~= s@.subrange(from as int, k as int));
        if s[k] == '\n' {
            n = n + 1;
        }
        k = k + 1;
    }
    n
}

fn word_is(s: &Vec<char>, from: usize, to: usize, w: &[char]) -> (r: bool)
    requires
        from <= to <= s.len(),
    ensures
        r == (s@.subrange(from as int, to as int) == w@),
{
    if to - from != w.len() {
        return false;
    }
    let mut k: usize = 0;
    while k < w.len()
        invariant
            from <= to <= s.len(),
            to - from == w@.len(),
            k <= w@.len(),
            forall|m: int| 0 <= m < k ==> s@[from + m] == w@[m],
        decreases w.len() - k,
    {
        if s[from + k] != w[k] {
            assert(s@.subrange(from as int, to as int)[k as int] != w@[k as int]);
            return false;
        }
        k = k + 1;
    }
    assert(s@.subrange(from as int, to as int) =~= w@);
    true
}

fn word_kind_exec(s: &Vec<char>, from: usize, to: usize) -> (r: TokenKind)
    requires
        from <= to <= s.len(),
    ensures
        r == word_kind(s@.subrange(from as int, to as int)),
{
    let ghost w = s@.subrange(from as int, to as int);
    if word_is(s, from, to, &['a', 'n', 'd']) {
        TokenKind::And
    } else if word_is(s, from, to, &['c', 'l', 'a', 's', 's']) {
        TokenKind::Class
    } else if word_is(s, from, to, &['e', 'l', 's', 'e']) {
        TokenKind::Else
    } else if word_is(s, from, to, &['f', 'a', 'l', 's', 'e']) {
        TokenKind::False
    } else if word_is(s, from, to, &['f', 'o', 'r']) {
        TokenKind::For
    } else if word_is(s, from, to, &['f', 'u', 'n']) {
        TokenKind::Fun
    } else if word_is(s, from, to, &['i', 'f']) {
        TokenKind::If
    } else if word_is(s, from, to, &['n', 'i', 'l']) {
        TokenKind::Nil
    } else if word_is(s, from, to, &['o', 'r']) {
        TokenKind::Or
    } else if word_is(s, from, to, &['p', 'r', 'i', 'n', 't']) {
        TokenKind::Print
    } else if word_is(s, from, to, &['r', 'e', 't', 'u', 'r', 'n']) {
        TokenKind::Return
    } else if word_is(s, from, to, &['s', 'u', 'p', 'e', 'r']) {
        TokenKind::Super
    } else if word_is(s, from, to, &['t', 'h', 'i', 's']) {
        TokenKind::This
    } else if word_is(s, from, to, &['t', 'r', 'u', 'e']) {
        TokenKind::True
    } else if word_is(s, from, to, &['v', 'a', 'r']) {
        TokenKind::Var
    } else if word_is(s, from, to, &['w', 'h', 'i', 'l', 'e']) {
        TokenKind::While
    } else {
        TokenKind::Identifier
    }
}

fn operator_exec(s: &Vec<char>, i: usize) -> (r: (TokenKind, usize))
    requires
        i < s.len(),
    ensures
        r.0 == operator_at(s@, i as int).0,
        r.1 == operator_at(s@, i as int).1,
{
    let eq_next = s.len() - i > 1 && s[i + 1] == '=';
    match s[i] {
        '(' => (TokenKind::LeftParen, 1),
        ')' => (TokenKind::RightParen, 1),
        '{' => (TokenKind::LeftBrace, 1),
        '}' => (TokenKind::RightBrace, 1),
        ',' => (TokenKind::Comma, 1),
        '.' => (TokenKind::Dot, 1),
        '-' => (TokenKind::Minus, 1),
        '+' => (TokenKind::Plus, 1),
        ';' => (TokenKind::Semicolon, 1),
        '/' => (TokenKind::Slash, 1),
        '*' => (TokenKind::Star, 1),
        '!' => if eq_next {
            (TokenKind::BangEqual, 2)
        } else {
            (TokenKind::Bang, 1)
        },
        '=' => if eq_next {
            (TokenKind::EqualEqual, 2)
        } else {
            (TokenKind::Equal, 1)
        },
        '<' => if eq_next {
            (TokenKind::LessEqual, 2)
        } else {
            (TokenKind::Less, 1)
        },
        '>' => if eq_next {
            (TokenKind::GreaterEqual, 2)
        } else {
            (TokenKind::Greater, 1)
        },
        _ => (TokenKind::Eof, 0),
    }
}

/// Splits source text into tokens, each with the line it starts on (lines
/// count from 1). Never fails: the result always ends with one end-of-input
/// token, and an unclosed string comes out as an unterminated-string token.
pub fn lex(source: &str) -> (r: Vec<Token>)
    requires
        source@.len() < usize::MAX,
    ensures
        views(r@) == scan(source@, 0, 1),
        r@.len() > 0,
        r@.last().kind == TokenKind::Eof,
{
    let s = chars_of(source);
    let mut out: Vec<Token> = Vec::new();
    let mut i: usize = 0;
    let mut line: usize = 1;
    while i < s.len()
        invariant
            s@ == source@,
            s@.len() < usize::MAX,
            i <= s.len(),
            1 <= line <= i + 1,
            scan(s@, 0, 1) == views(out@) + scan(s@, i as int, line as int),
        decreases s.len() - i,
    {
        let c = s[i];
        if c == '\n' {
            line = line + 1;
            i = i + 1;
        } else if c == ' ' || c == '\r' || c == '\t' {
            i = i + 1;
        } else if c == '/' && s.len() - i > 1 && s[i + 1] == '/' {
            i = find_char_exec(&s, i, '\n');
        } else if c == '"' {
            let j = find_char_exec(&s, i + 1, '"');
            let text = text_between(&s, i + 1, j);
            let nl = count_newlines(&s, i + 1, j);
            let kind = if j < s.len() {
                TokenKind::Str
            } else {
                TokenKind::UnterminatedStr
            };
            let tk = Token::new(kind, text, line);
            proof {
                lemma_views_push(out@, tk, scan(s@, j + 1, line + nl));
                lemma_views_push(out@, tk, seq![(TokenKind::Eof, Seq::<char>::empty(), line + nl)]);
            }
            out.push(tk);
            line = line + nl;
            if j < s.len() {
                i = j + 1;
            } else {
                i = j;
            }
        } else if is_digit_exec(c) {
            let j = number_end_exec(&s, i);
            let tk = Token::new(TokenKind::Number, text_between(&s, i, j), line);
            proof {
                lemma_views_push(out@, tk, scan(s@, j as int, line as int));
            }
            out.push(tk);
            i = j;
        } else if is_alpha_exec(c) {
            let j = word_end_exec(&s, i);
            let kind = word_kind_exec(&s, i, j);
            let tk = Token::new(kind, text_between(&s, i, j), line);
            proof {
                lemma_views_push(out@, tk, scan(s@, j as int, line as int));
            }
            out.push(tk);
            i = j;
        } else {
            let (kind, n) = operator_exec(&s, i);
            if n > 0 {
                let tk = Token::new(kind, text_between(&s, i, i + n), line);
                proof {
                    lemma_views_push(out@, tk, scan(s@, i + n, line as int));
                }
                out.push(tk);
                i = i + n;
            } else {
                i = i + 1;
            }
        }
    }
    let eof = Token::new(TokenKind::Eof, String::new(), line);
    proof {
        lemma_views_push(out@, eof, seq![]);
        assert(seq![eof@] + Seq::<TokenView>::empty() =~= seq![eof@]);
        lemma_scan_ends_with_eof(s@, 0, 1);
        assert(views(out@.push(eof)).last() == eof@);
    }
    out.push(eof);
    out
}

} // verus!
