//! The lexer: source characters to positioned tokens.
//!
//! At each position the lexer tries, in order: the fixed token table
//! (two-character operators before their one-character prefixes, keywords
//! as plain prefixes), then an integer literal, then an identifier, then
//! whitespace. The first match wins; a position where nothing matches is a
//! `LexError`.
use vstd::prelude::*;

use crate::errors::LexError;
use crate::strutil::push_char;
use crate::token::PositionedToken;
use crate::token::SourcePosition;
use crate::token::SpecToken;
use crate::token::Token;

verus! {

pub open spec fn is_digit_char(c: char) -> bool {
    '0' <= c && c <= '9'
}

pub open spec fn is_lower_char(c: char) -> bool {
    'a' <= c && c <= 'z'
}

pub open spec fn is_ident_char(c: char) -> bool {
    is_lower_char(c) || is_digit_char(c) || c == '_'
}

pub open spec fn is_space_char(c: char) -> bool {
    c == ' ' || c == '\t' || c == '\n'
}

pub open spec fn digit_val(c: char) -> int {
    c as int - '0' as int
}

/// The numeric value of a digit string, most significant digit first.
pub open spec fn digits_value(s: Seq<char>) -> int
    decreases s.len(),
{
    if s.len() == 0 {
        0
    } else {
        digits_value(s.drop_last()) * 10 + digit_val(s.last())
    }
}

/// The value an integer literal token carries: the numeral's value,
/// saturated at `i32::MAX` when the literal does not fit.
pub open spec fn num_token_value(s: Seq<char>) -> int {
    if digits_value(s) <= i32::MAX {
        digits_value(s)
    } else {
        i32::MAX as int
    }
}

/// Length of the maximal run of decimal digits starting at `pos`.
pub open spec fn digit_run_len(s: Seq<char>, pos: int) -> nat
    decreases s.len() - pos,
{
    if 0 <= pos && pos < s.len() && is_digit_char(s[pos]) {
        1 + digit_run_len(s, pos + 1)
    } else {
        0
    }
}

/// Length of the maximal run of identifier characters starting at `pos`.
pub open spec fn ident_run_len(s: Seq<char>, pos: int) -> nat
    decreases s.len() - pos,
{
    if 0 <= pos && pos < s.len() && is_ident_char(s[pos]) {
        1 + ident_run_len(s, pos + 1)
    } else {
        0
    }
}

pub open spec fn word_at(s: Seq<char>, pos: int, w: Seq<char>) -> bool {
    0 <= pos && pos + w.len() <= s.len() && s.subrange(pos, pos + w.len()) == w
}

/// The fixed-table token starting at `pos`, with its character count:
/// punctuation, two-character operators before their one-character
/// prefixes, then keywords. `None` when no table entry matches.
pub open spec fn spec_fixed_token(s: Seq<char>, pos: int) -> Option<(SpecToken, int)> {
    if !(0 <= pos && pos < s.len()) {
        None
    } else {
        let c = s[pos];
        if c == '+' {
            Some((SpecToken::Plus, 1))
        } else if c == '-' {
            Some((SpecToken::Minus, 1))
        } else if c == '*' {
            Some((SpecToken::Asterisk, 1))
        } else if c == '/' {
            Some((SpecToken::Slash, 1))
        } else if c == '(' {
            Some((SpecToken::LParen, 1))
        } else if c == ')' {
            Some((SpecToken::RParen, 1))
        } else if c == '{' {
            Some((SpecToken::LBrace, 1))
        } else if c == '}' {
            Some((SpecToken::RBrace, 1))
        } else if c == '[' {
            Some((SpecToken::LBracket, 1))
        } else if c == ']' {
            Some((SpecToken::RBracket, 1))
        } else if c == ',' {
            Some((SpecToken::Comma, 1))
        } else if c == '=' && pos + 1 < s.len() && s[pos + 1] == '=' {
            Some((SpecToken::Equality, 2))
        } else if c == '!' && pos + 1 < s.len() && s[pos + 1] == '=' {
            Some((SpecToken::Inequality, 2))
        } else if c == '<' && pos + 1 < s.len() && s[pos + 1] == '=' {
            Some((SpecToken::LessThanOrEqual, 2))
        } else if c == '<' {
            Some((SpecToken::LessThan, 1))
        } else if c == '>' && pos + 1 < s.len() && s[pos + 1] == '=' {
            Some((SpecToken::GreaterThanOrEqual, 2))
        } else if c == '>' {
            Some((SpecToken::GreaterThan, 1))
        } else if c == ';' {
            Some((SpecToken::Semicolon, 1))
        } else if c == '=' {
            Some((SpecToken::Assign, 1))
        } else if c == '&' {
            Some((SpecToken::Ampersand, 1))
        } else if word_at(s, pos, "if"@) {
            Some((SpecToken::If, 2))
        } else if word_at(s, pos, "else"@) {
            Some((SpecToken::Else, 4))
        } else if word_at(s, pos, "while"@) {
            Some((SpecToken::While, 5))
        } else if word_at(s, pos, "for"@) {
            Some((SpecToken::For, 3))
        } else if word_at(s, pos, "return"@) {
            Some((SpecToken::Return, 6))
        } else if word_at(s, pos, "int"@) {
            Some((SpecToken::Int, 3))
        } else if word_at(s, pos, "extern"@) {
            Some((SpecToken::Extern, 6))
        } else if word_at(s, pos, "sizeof"@) {
            Some((SpecToken::Sizeof, 6))
        } else {
            None
        }
    }
}

/// Puts `front` before the tokens of `r`; an error passes through.
pub open spec fn prepend_result(
    front: Seq<(SpecToken, int)>,
    r: Result<Seq<(SpecToken, int)>, int>,
) -> Result<Seq<(SpecToken, int)>, int> {
    match r {
        Ok(rest) => Ok(front + rest),
        Err(p) => Err(p),
    }
}

/// The token stream from `pos` to the end of the input, or the position of
/// the first character no rule matches.
pub open spec fn spec_tokenize_from(s: Seq<char>, pos: int) -> Result<Seq<(SpecToken, int)>, int>
    decreases s.len() - pos,
{
    if !(0 <= pos && pos < s.len()) {
        Ok(Seq::empty())
    } else {
        match spec_fixed_token(s, pos) {
            Some((t, l)) => {
                if 1 <= l && pos + l <= s.len() {
                    prepend_result(seq![(t, pos)], spec_tokenize_from(s, pos + l))
                } else {
                    Err(pos)
                }
            },
            None => {
                let c = s[pos];
                if is_digit_char(c) {
                    let l = digit_run_len(s, pos) as int;
                    if pos + l <= s.len() {
                        prepend_result(
                            seq![(SpecToken::Num(num_token_value(s.subrange(pos, pos + l))), pos)],
                            spec_tokenize_from(s, pos + l),
                        )
                    } else {
                        Err(pos)
                    }
                } else if is_lower_char(c) {
                    let l = ident_run_len(s, pos) as int;
                    if pos + l <= s.len() {
                        prepend_result(
                            seq![(SpecToken::Identifier(s.subrange(pos, pos + l)), pos)],
                            spec_tokenize_from(s, pos + l),
                        )
                    } else {
                        Err(pos)
                    }
                } else if is_space_char(c) {
                    spec_tokenize_from(s, pos + 1)
                } else {
                    Err(pos)
                }
            },
        }
    }
}

/// The view of a produced token list: each token's model with its position.
pub open spec fn toks_view(ts: Seq<PositionedToken>) -> Seq<(SpecToken, int)> {
    ts.map(|i: int, pt: PositionedToken| (pt.0@, pt.1.0 as int))
}

proof fn lemma_prepend_assoc(
    a: Seq<(SpecToken, int)>,
    b: Seq<(SpecToken, int)>,
    r: Result<Seq<(SpecToken, int)>, int>,
)
    ensures
        prepend_result(a, prepend_result(b, r)) == prepend_result(a + b, r),
{
    match r {
        Ok(rest) => {
            assert(a + (b + rest) =~= (a + b) + rest);
        },
        Err(_) => {},
    }
}

proof fn lemma_word_at_chars(s: Seq<char>, pos: int, w: Seq<char>)
    requires
        word_at(s, pos, w),
        w.len() >= 1,
    ensures
        s[pos] == w[0],
        w.len() >= 2 ==> s[pos + 1] == w[1],
        w.len() >= 3 ==> s[pos + 2] == w[2],
        w.len() >= 4 ==> s[pos + 3] == w[3],
        w.len() >= 5 ==> s[pos + 4] == w[4],
        w.len() >= 6 ==> s[pos + 5] == w[5],
{
    assert(s.subrange(pos, pos + w.len())[0] == s[pos]);
    if w.len() >= 2 {
        assert(s.subrange(pos, pos + w.len())[1] == s[pos + 1]);
    }
    if w.len() >= 3 {
        assert(s.subrange(pos, pos + w.len())[2] == s[pos + 2]);
    }
    if w.len() >= 4 {
        assert(s.subrange(pos, pos + w.len())[3] == s[pos + 3]);
    }
    if w.len() >= 5 {
        assert(s.subrange(pos, pos + w.len())[4] == s[pos + 4]);
    }
    if w.len() >= 6 {
        assert(s.subrange(pos, pos + w.len())[5] == s[pos + 5]);
    }
}

proof fn lemma_toks_view_push(ts: Seq<PositionedToken>, pt: PositionedToken)
    ensures
        toks_view(ts.push(pt)) =~= toks_view(ts) + seq![(pt.0@, pt.1.0 as int)],
{
}

fn is_digit(c: char) -> (r: bool)
    ensures
        r == is_digit_char(c),
{
    '0' <= c && c <= '9'
}

fn is_lower(c: char) -> (r: bool)
    ensures
        r == is_lower_char(c),
{
    'a' <= c && c <= 'z'
}

fn is_ident(c: char) -> (r: bool)
    ensures
        r == is_ident_char(c),
{
    is_lower(c) || is_digit(c) || c == '_'
}

fn is_space(c: char) -> (r: bool)
    ensures
        r == is_space_char(c),
{
    c == ' ' || c == '\t' || c == '\n'
}

/// The fixed-table token at `pos`, if any, with its length in characters.
fn fixed_token_at(input: &Vec<char>, pos: usize) -> (r: Option<(Token, usize)>)
    requires
        pos < input@.len(),
    ensures
        match r {
            Some(tl) => spec_fixed_token(input@, pos as int) == Some((tl.0@, tl.1 as int)) && 1
                <= tl.1 && pos + tl.1 <= input@.len(),
            None => spec_fixed_token(input@, pos as int) is None,
        },
{
    proof {
        reveal_strlit("if");
        reveal_strlit("else");
        reveal_strlit("while");
        reveal_strlit("for");
        reveal_strlit("return");
        reveal_strlit("int");
        reveal_strlit("extern");
        reveal_strlit("sizeof");
    }
    let ghost s = input@;
    let ghost p = pos as int;
    proof {
        if word_at(s, p, "if"@) {
            lemma_word_at_chars(s, p, "if"@);
        }
        if word_at(s, p, "else"@) {
            lemma_word_at_chars(s, p, "else"@);
        }
        if word_at(s, p, "while"@) {
            lemma_word_at_chars(s, p, "while"@);
        }
        if word_at(s, p, "for"@) {
            lemma_word_at_chars(s, p, "for"@);
        }
        if word_at(s, p, "return"@) {
            lemma_word_at_chars(s, p, "return"@);
        }
        if word_at(s, p, "int"@) {
            lemma_word_at_chars(s, p, "int"@);
        }
        if word_at(s, p, "extern"@) {
            lemma_word_at_chars(s, p, "extern"@);
        }
        if word_at(s, p, "sizeof"@) {
            lemma_word_at_chars(s, p, "sizeof"@);
        }
    }
    let n = input.len();
    let c = input[pos];
    if c == '+' {
        Some((Token::Plus, 1))
    } else if c == '-' {
        Some((Token::Minus, 1))
    } else if c == '*' {
        Some((Token::Asterisk, 1))
    } else if c == '/' {
        Some((Token::Slash, 1))
    } else if c == '(' {
        Some((Token::LParen, 1))
    } else if c == ')' {
        Some((Token::RParen, 1))
    } else if c == '{' {
        Some((Token::LBrace, 1))
    } else if c == '}' {
        Some((Token::RBrace, 1))
    } else if c == '[' {
        Some((Token::LBracket, 1))
    } else if c == ']' {
        Some((Token::RBracket, 1))
    } else if c == ',' {
        Some((Token::Comma, 1))
    } else if c == '=' && n - pos >= 2 && input[pos + 1] == '=' {
        Some((Token::Equality, 2))
    } else if c == '!' && n - pos >= 2 && input[pos + 1] == '=' {
        Some((Token::Inequality, 2))
    } else if c == '<' && n - pos >= 2 && input[pos + 1] == '=' {
        Some((Token::LessThanOrEqual, 2))
    } else if c == '<' {
        Some((Token::LessThan, 1))
    } else if c == '>' && n - pos >= 2 && input[pos + 1] == '=' {
        Some((Token::GreaterThanOrEqual, 2))
    } else if c == '>' {
        Some((Token::GreaterThan, 1))
    } else if c == ';' {
        Some((Token::Semicolon, 1))
    } else if c == '=' {
        Some((Token::Assign, 1))
    } else if c == '&' {
        Some((Token::Ampersand, 1))
    } else if c == 'i' && n - pos >= 2 && input[pos + 1] == 'f' {
        proof {
            assert(s.subrange(p, p + 2) =~= "if"@);
            assert(spec_fixed_token(s, p) == Some((SpecToken::If, 2int)));
        }
        Some((Token::If, 2))
    } else if c == 'e' && n - pos >= 4 && input[pos + 1] == 'l' && input[pos + 2] == 's' && input[pos
        + 3] == 'e' {
        proof {
            assert(s.subrange(p, p + 4) =~= "else"@);
            assert(spec_fixed_token(s, p) == Some((SpecToken::Else, 4int)));
        }
        Some((Token::Else, 4))
    } else if c == 'w' && n - pos >= 5 && input[pos + 1] == 'h' && input[pos + 2] == 'i' && input[pos
        + 3] == 'l' && input[pos + 4] == 'e' {
        proof {
            assert(s.subrange(p, p + 5) =~= "while"@);
            assert(spec_fixed_token(s, p) == Some((SpecToken::While, 5int)));
        }
        Some((Token::While, 5))
    } else if c == 'f' && n - pos >= 3 && input[pos + 1] == 'o' && input[pos + 2] == 'r' {
        proof {
            assert(s.subrange(p, p + 3) =~= "for"@);
            assert(spec_fixed_token(s, p) == Some((SpecToken::For, 3int)));
        }
        Some((Token::For, 3))
    } else if c == 'r' && n - pos >= 6 && input[pos + 1] == 'e' && input[pos + 2] == 't' && input[pos
        + 3] == 'u' && input[pos + 4] == 'r' && input[pos + 5] == 'n' {
        proof {
            assert(s.subrange(p, p + 6) =~= "return"@);
            assert(spec_fixed_token(s, p) == Some((SpecToken::Return, 6int)));
        }
        Some((Token::Return, 6))
    } else if c == 'i' && n - pos >= 3 && input[pos + 1] == 'n' && input[pos + 2] == 't' {
        proof {
            assert(s.subrange(p, p + 3) =~= "int"@);
            assert(spec_fixed_token(s, p) == Some((SpecToken::Int, 3int)));
        }
        Some((Token::Int, 3))
    } else if c == 'e' && n - pos >= 6 && input[pos + 1] == 'x' && input[pos + 2] == 't' && input[pos
        + 3] == 'e' && input[pos + 4] == 'r' && input[pos + 5] == 'n' {
        proof {
            assert(s.subrange(p, p + 6) =~= "extern"@);
            assert(spec_fixed_token(s, p) == Some((SpecToken::Extern, 6int)));
        }
        Some((Token::Extern, 6))
    } else if c == 's' && n - pos >= 6 && input[pos + 1] == 'i' && input[pos + 2] == 'z' && input[pos
        + 3] == 'e' && input[pos + 4] == 'o' && input[pos + 5] == 'f' {
        proof {
            assert(s.subrange(p, p + 6) =~= "sizeof"@);
            assert(spec_fixed_token(s, p) == Some((SpecToken::Sizeof, 6int)));
        }
        Some((Token::Sizeof, 6))
    } else {
        None
    }
}

/// Reads the maximal digit run starting at `start` and returns its value
/// (saturated at `i32::MAX`) and its length; `(None, 0)` when `start` does
/// not hold a digit.
pub fn munch_int(input: &Vec<char>, start: usize) -> (r: (Option<i32>, usize))
    requires
        start <= input@.len(),
    ensures
        ({
            let s = input@;
            let p = start as int;
            if p < s.len() && is_digit_char(s[p]) {
                let l = digit_run_len(s, p) as int;
                &&& r.1 == l
                &&& p + l <= s.len()
                &&& 0 <= num_token_value(s.subrange(p, p + l)) <= i32::MAX
                &&& r.0 == Some(num_token_value(s.subrange(p, p + l)) as i32)
            } else {
                r.0 is None && r.1 == 0
            }
        }),
{
    let ghost s = input@;
    let n = input.len();
    if !(start < n && is_digit(input[start])) {
        return (None, 0);
    }
    let mut i = start;
    let mut acc: u64 = 0;
    proof {
        assert(s.subrange(start as int, start as int) =~= Seq::<char>::empty());
    }
    while i < n && is_digit(input[i])
        invariant
            start <= i <= n,
            n == s.len(),
            s == input@,
            digit_run_len(s, start as int) == i - start + digit_run_len(s, i as int),
            acc <= i32::MAX,
            acc == num_token_value(s.subrange(start as int, i as int)),
        decreases n - i,
    {
        let ghost prefix = s.subrange(start as int, i as int);
        let ghost prefix2 = s.subrange(start as int, i as int + 1);
        let c = input[i];
        let d: u64 = (c as u64) - ('0' as u64);
        proof {
            assert(prefix2.drop_last() =~= prefix);
            assert(digits_value(prefix2) == digits_value(prefix) * 10 + digit_val(c));
            assert(digits_value(prefix) >= 0);
            assert(digits_value(prefix) <= digits_value(prefix) * 10 + digit_val(c))
                by (nonlinear_arith)
                requires
                    digits_value(prefix) >= 0,
                    digit_val(c) >= 0,
            ;
        }
        let next: u64 = acc * 10 + d;
        acc = if next > 2147483647 {
            2147483647
        } else {
            next
        };
        i = i + 1;
    }
    proof {
        assert(digit_run_len(s, i as int) == 0);
    }
    (Some(acc as i32), i - start)
}

/// Reads the maximal identifier run (lowercase letters, digits,
/// underscores) starting at `start`; `(None, 0)` when `start` does not
/// hold a lowercase letter.
pub fn munch_identifier(input: &Vec<char>, start: usize) -> (r: (Option<String>, usize))
    requires
        start <= input@.len(),
    ensures
        ({
            let s = input@;
            let p = start as int;
            if p < s.len() && is_lower_char(s[p]) {
                let l = ident_run_len(s, p) as int;
                &&& r.1 == l
                &&& p + l <= s.len()
                &&& (r.0 matches Some(id) && id@ == s.subrange(p, p + l))
            } else {
                r.0 is None && r.1 == 0
            }
        }),
{
    let ghost s = input@;
    let n = input.len();
    if !(start < n && is_lower(input[start])) {
        return (None, 0);
    }
    let mut i = start;
    let mut acc = String::new();
    proof {
        assert(s.subrange(start as int, start as int) =~= Seq::<char>::empty());
    }
    while i < n && is_ident(input[i])
        invariant
            start <= i <= n,
            n == s.len(),
            s == input@,
            ident_run_len(s, start as int) == i - start + ident_run_len(s, i as int),
            acc@ == s.subrange(start as int, i as int),
        decreases n - i,
    {
        let c = input[i];
        push_char(&mut acc, c);
        i = i + 1;
        proof {
            assert(s.subrange(start as int, i as int) =~= s.subrange(start as int, i as int - 1)
                .push(c));
        }
    }
    proof {
        assert(ident_run_len(s, i as int) == 0);
    }
    (Some(acc), i - start)
}

/// Lexes the whole input. On success the result is exactly the token
/// stream `spec_tokenize_from` describes; otherwise the error carries the
/// first position where no rule matches. A decimal literal is accepted at
/// any length; by deliberate choice its value saturates at `i32::MAX`
/// when the numeral exceeds it (`num_token_value`), so an oversized
/// literal lexes rather than failing.
pub fn tokenize(input: &Vec<char>) -> (r: Result<Vec<PositionedToken>, LexError>)
    ensures
        match r {
            Ok(ts) => spec_tokenize_from(input@, 0) == Ok::<_, int>(toks_view(ts@)),
            Err(e) => spec_tokenize_from(input@, 0) == Err::<Seq<(SpecToken, int)>, _>(
                e.pos as int,
            ),
        },
{
    let ghost s = input@;
    let n = input.len();
    let mut ans: Vec<PositionedToken> = Vec::new();
    let mut pos: usize = 0;
    proof {
        assert(toks_view(ans@) =~= Seq::<(SpecToken, int)>::empty());
        assert(prepend_result(toks_view(ans@), spec_tokenize_from(s, 0)) == spec_tokenize_from(
            s,
            0,
        ));
    }
    while pos < n
        invariant
            pos <= n,
            n == s.len(),
            s == input@,
            spec_tokenize_from(s, 0) == prepend_result(
                toks_view(ans@),
                spec_tokenize_from(s, pos as int),
            ),
        decreases n - pos,
    {
        let ghost old_seq = ans@;
        let ghost old_view = toks_view(ans@);
        match fixed_token_at(input, pos) {
            Some((tok, l)) => {
                let ghost tv = tok@;
                let ghost here = seq![(tv, pos as int)];
                proof {
                    assert(spec_tokenize_from(s, pos as int) == prepend_result(
                        here,
                        spec_tokenize_from(s, pos as int + l as int),
                    ));
                    lemma_prepend_assoc(old_view, here, spec_tokenize_from(
                        s,
                        pos as int + l as int,
                    ));
                }
                ans.push((tok, SourcePosition(pos)));
                proof {
                    lemma_toks_view_push(old_seq, (tok, SourcePosition(pos)));
                    assert(old_view + here =~= toks_view(ans@));
                }
                pos = pos + l;
            },
            None => {
                let c = input[pos];
                if is_digit(c) {
                    let (num, l) = munch_int(input, pos);
                    let num_val = match num {
                        Some(v) => v,
                        None => 0,  // a digit starts here, so a value is always returned
                    };
                    let ghost tv = SpecToken::Num(
                        num_token_value(s.subrange(pos as int, pos as int + l as int)),
                    );
                    let ghost here = seq![(tv, pos as int)];
                    proof {
                        assert((Token::Num(num_val))@ == tv);
                        assert(spec_tokenize_from(s, pos as int) == prepend_result(
                            here,
                            spec_tokenize_from(s, pos as int + l as int),
                        ));
                        lemma_prepend_assoc(old_view, here, spec_tokenize_from(
                            s,
                            pos as int + l as int,
                        ));
                    }
                    ans.push((Token::Num(num_val), SourcePosition(pos)));
                    proof {
                        lemma_toks_view_push(old_seq, (Token::Num(num_val), SourcePosition(pos)));
                        assert(old_view + here =~= toks_view(ans@));
                    }
                    pos = pos + l;
                } else if is_lower(c) {
                    let (id, l) = munch_identifier(input, pos);
                    let id_val = match id {
                        Some(v) => v,
                        None => String::new(),  // a lowercase letter starts here
                    };
                    let ghost tv = SpecToken::Identifier(
                        s.subrange(pos as int, pos as int + l as int),
                    );
                    let ghost here = seq![(tv, pos as int)];
                    proof {
                        assert((Token::Identifier(id_val))@ == tv);
                        assert(spec_tokenize_from(s, pos as int) == prepend_result(
                            here,
                            spec_tokenize_from(s, pos as int + l as int),
                        ));
                        lemma_prepend_assoc(old_view, here, spec_tokenize_from(
                            s,
                            pos as int + l as int,
                        ));
                    }
                    ans.push((Token::Identifier(id_val), SourcePosition(pos)));
                    proof {
                        lemma_toks_view_push(
                            old_seq,
                            (Token::Identifier(id_val), SourcePosition(pos)),
                        );
                        assert(old_view + here =~= toks_view(ans@));
                    }
                    pos = pos + l;
                } else if is_space(c) {
                    proof {
                        assert(spec_tokenize_from(s, pos as int) == spec_tokenize_from(
                            s,
                            pos as int + 1,
                        ));
                    }
                    pos = pos + 1;
                } else {
                    proof {
                        assert(spec_tokenize_from(s, pos as int) == Err::<
                            Seq<(SpecToken, int)>,
                            _,
                        >(pos as int));
                    }
                    return Err(LexError { pos });
                }
            },
        }
    }
    proof {
        assert(spec_tokenize_from(s, pos as int) == Ok::<_, int>(Seq::<(SpecToken, int)>::empty()));
        assert(toks_view(ans@) + Seq::<(SpecToken, int)>::empty() =~= toks_view(ans@));
    }
    Ok(ans)
}

} // verus!
