//! What holds of every scan: keywords, unclosed strings, and the way back
//! from the lexemes to the source.

use vstd::prelude::*;
use crate::chars::{is_blank, is_digit, is_letter};
use crate::scan::{
    at_end, char_at, comment_at, comment_end, in_run, keyword_kind, lemma_run_end,
    lemma_scan_from_bounds, lemma_scan_token_bounds, punct_kind, run_end, scan_all, scan_from,
    scan_stop, scan_token, unterminated, with_equal, Run,
};
use crate::token::{TokenType, TokenView};

verus! {

/// A keyword is two to six letters long and starts with a small letter.
pub proof fn lemma_keyword_shape(lexeme: Seq<char>)
    requires
        keyword_kind(lexeme) is Some,
    ensures
        2 <= lexeme.len() <= 6,
        'a' <= lexeme[0] <= 'z',
        keyword_kind(lexeme) != Some(TokenType::Identifier),
{
    reveal_strlit("and");
    reveal_strlit("class");
    reveal_strlit("else");
    reveal_strlit("false");
    reveal_strlit("fun");
    reveal_strlit("for");
    reveal_strlit("if");
    reveal_strlit("nil");
    reveal_strlit("or");
    reveal_strlit("print");
    reveal_strlit("return");
    reveal_strlit("super");
    reveal_strlit("this");
    reveal_strlit("true");
    reveal_strlit("var");
    reveal_strlit("while");
}

/// A token whose lexeme spells a keyword has that keyword's kind, wherever
/// its first character stands.
pub proof fn lemma_token_keyword(s: Seq<char>, b: int)
    requires
        0 <= b < s.len(),
    ensures
        keyword_kind(scan_token(s, b).token.lexeme) matches Some(kind) ==> scan_token(
            s,
            b,
        ).token.kind == kind,
{
    let lexeme = scan_token(s, b).token.lexeme;
    if keyword_kind(lexeme) is Some {
        lemma_keyword_shape(lexeme);
        lemma_scan_token_bounds(s, b);
        reveal_strlit("Unterimated string");
        let e = b + 1;
        lemma_run_end(s, e, Run::Quoted);
        lemma_run_end(s, e, Run::Word);
        lemma_run_end(s, e, Run::Digits);
        let d = run_end(s, e, Run::Digits);
        if d + 1 <= s.len() {
            lemma_run_end(s, d + 1, Run::Digits);
        }
    }
}

/// A token whose lexeme spells a keyword has that keyword's kind, and so
/// is never a plain identifier.
pub proof fn lemma_keyword_lexemes_have_keyword_kinds(s: Seq<char>, pos: int)
    requires
        0 <= pos <= s.len(),
    ensures
        keyword_kind(scan_from(s, pos).token.lexeme) matches Some(kind) ==> scan_from(
            s,
            pos,
        ).token.kind == kind,
        scan_from(s, pos).token.kind == TokenType::Identifier ==> keyword_kind(
            scan_from(s, pos).token.lexeme,
        ) is None,
    decreases s.len() - pos,
{
    let lexeme = scan_from(s, pos).token.lexeme;
    if keyword_kind(lexeme) is Some {
        lemma_keyword_shape(lexeme);
    }
    if !at_end(s, pos) {
        let b = run_end(s, pos, Run::Blank);
        lemma_run_end(s, pos, Run::Blank);
        if b < s.len() {
            lemma_token_keyword(s, b);
            if comment_at(s, b) {
                lemma_run_end(s, b + 2, Run::Comment);
                lemma_keyword_lexemes_have_keyword_kinds(s, comment_end(s, b));
            }
        }
    }
}

/// Among all the tokens of a text, each whose lexeme spells a keyword has
/// that keyword's kind.
pub proof fn lemma_keywords_in_all_tokens(s: Seq<char>, pos: int)
    requires
        0 <= pos <= s.len(),
    ensures
        forall|i: int|
            0 <= i < scan_all(s, pos).len() ==> (keyword_kind(
                #[trigger] scan_all(s, pos)[i].lexeme,
            ) matches Some(kind) ==> scan_all(s, pos)[i].kind == kind),
    decreases s.len() - pos,
{
    let next = scan_from(s, pos);
    lemma_scan_from_bounds(s, pos);
    lemma_keyword_lexemes_have_keyword_kinds(s, pos);
    if next.token.kind != TokenType::Eof {
        lemma_keywords_in_all_tokens(s, next.end);
        let rest = scan_all(s, next.end);
        assert forall|i: int| 0 <= i < scan_all(s, pos).len() implies (keyword_kind(
            #[trigger] scan_all(s, pos)[i].lexeme,
        ) matches Some(kind) ==> scan_all(s, pos)[i].kind == kind) by {
            if i > 0 {
                assert(scan_all(s, pos)[i] == rest[i - 1]);
            }
        }
    } else {
        if keyword_kind(Seq::<char>::empty()) is Some {
            lemma_keyword_shape(Seq::<char>::empty());
        }
    }
}

/// An opening quote with no closing quote behind it gives a token of kind
/// `Unknown`: scanning does not fail on it.
pub proof fn lemma_unterminated_string(s: Seq<char>, pos: int)
    requires
        0 <= pos <= s.len(),
        !at_end(s, pos),
        char_at(s, run_end(s, pos, Run::Blank)) == '"',
        forall|j: int| run_end(s, pos, Run::Blank) < j < s.len() ==> s[j] != '"',
    ensures
        scan_from(s, pos).token == (TokenView {
            kind: TokenType::Unknown,
            lexeme: unterminated(),
        }),
        scan_from(s, pos).start == run_end(s, pos, Run::Blank),
        scan_from(s, pos).end == run_end(s, scan_from(s, pos).start + 1, Run::Quoted),
{
    let b = run_end(s, pos, Run::Blank);
    lemma_run_end(s, pos, Run::Blank);
    lemma_run_end(s, b + 1, Run::Quoted);
}

/// The significant characters of `s` from `pos` on: everything but the
/// blanks and line comments that stand outside string literals. A string
/// literal runs from its opening quote to the next quote.
pub open spec fn significant(s: Seq<char>, pos: int) -> Seq<char>
    decreases s.len() - pos,
{
    if pos < 0 || pos >= s.len() {
        Seq::empty()
    } else if is_blank(s[pos]) {
        significant(s, pos + 1)
    } else if comment_at(s, pos) {
        proof {
            lemma_run_end(s, pos + 2, Run::Comment);
        }
        significant(s, comment_end(s, pos))
    } else if s[pos] == '"' && char_at(s, run_end(s, pos + 1, Run::Quoted)) == '"' {
        let q = run_end(s, pos + 1, Run::Quoted);
        proof {
            lemma_run_end(s, pos + 1, Run::Quoted);
        }
        s.subrange(pos, q + 1) + significant(s, q + 1)
    } else {
        seq![s[pos]] + significant(s, pos + 1)
    }
}

/// The lexemes of `tokens`, one behind the other.
pub open spec fn joined(tokens: Seq<TokenView>) -> Seq<char>
    decreases tokens.len(),
{
    if tokens.len() == 0 {
        Seq::empty()
    } else {
        tokens[0].lexeme + joined(tokens.drop_first())
    }
}

/// Whether the character at `i` is kept for its own sake: no blank, no
/// quote, no start of a comment.
pub open spec fn plain_at(s: Seq<char>, i: int) -> bool {
    !is_blank(char_at(s, i)) && char_at(s, i) != '"' && !comment_at(s, i)
}

/// The blanks in front of a position are not significant.
pub proof fn lemma_significant_skips_blanks(s: Seq<char>, pos: int)
    requires
        0 <= pos <= s.len(),
    ensures
        significant(s, pos) == significant(s, run_end(s, pos, Run::Blank)),
    decreases s.len() - pos,
{
    if pos < s.len() && is_blank(s[pos]) {
        lemma_significant_skips_blanks(s, pos + 1);
    }
}

/// A stretch of plain characters is significant as it stands.
pub proof fn lemma_significant_keeps_plain(s: Seq<char>, from: int, to: int)
    requires
        0 <= from <= to <= s.len(),
        forall|j: int| from <= j < to ==> plain_at(s, j),
    ensures
        significant(s, from) == s.subrange(from, to) + significant(s, to),
    decreases to - from,
{
    if from < to {
        assert(plain_at(s, from));
        lemma_significant_keeps_plain(s, from + 1, to);
        assert(s.subrange(from, to) =~= seq![s[from]] + s.subrange(from + 1, to));
        assert(seq![s[from]] + (s.subrange(from + 1, to) + significant(s, to)) =~= (seq![s[from]]
            + s.subrange(from + 1, to)) + significant(s, to));
    } else {
        assert(s.subrange(from, to) =~= Seq::<char>::empty());
        assert(Seq::<char>::empty() + significant(s, to) =~= significant(s, to));
    }
}

/// The lexeme of a token that is not `Unknown` is the source text between
/// its start and its end, and that text is significant as it stands.
pub proof fn lemma_token_is_source(s: Seq<char>, b: int)
    requires
        0 <= b < s.len(),
        !is_blank(char_at(s, b)),
        !comment_at(s, b),
        scan_token(s, b).token.kind != TokenType::Unknown,
    ensures
        b < scan_token(s, b).end <= s.len(),
        scan_token(s, b).token.lexeme == s.subrange(b, scan_token(s, b).end),
        significant(s, b) == scan_token(s, b).token.lexeme + significant(
            s,
            scan_token(s, b).end,
        ),
{
    let found = scan_token(s, b);
    let c = char_at(s, b);
    lemma_scan_token_bounds(s, b);
    let e = b + 1;
    if c == '"' {
        lemma_run_end(s, e, Run::Quoted);
    } else if is_letter(c) {
        let w = run_end(s, e, Run::Word);
        lemma_run_end(s, e, Run::Word);
        assert forall|j: int| b <= j < w implies plain_at(s, j) by {
            if j > b {
                assert(in_run(Run::Word, s[j]));
            }
        }
        lemma_significant_keeps_plain(s, b, w);
    } else if is_digit(c) {
        let d = run_end(s, e, Run::Digits);
        lemma_run_end(s, e, Run::Digits);
        if char_at(s, d) == '.' && is_digit(char_at(s, d + 1)) {
            let f = run_end(s, d + 1, Run::Digits);
            lemma_run_end(s, d + 1, Run::Digits);
            assert forall|j: int| b <= j < f implies plain_at(s, j) by {
                if b < j < d {
                    assert(in_run(Run::Digits, s[j]));
                } else if d < j {
                    assert(in_run(Run::Digits, s[j]));
                }
            }
            lemma_significant_keeps_plain(s, b, f);
        } else {
            assert forall|j: int| b <= j < d implies plain_at(s, j) by {
                if b < j {
                    assert(in_run(Run::Digits, s[j]));
                }
            }
            lemma_significant_keeps_plain(s, b, d);
        }
    } else {
        assert(punct_kind(c) is Some);
        let kind = punct_kind(c)->0;
        if with_equal(kind) is Some && char_at(s, e) == '=' {
            assert(plain_at(s, b));
            assert(plain_at(s, e));
            lemma_significant_keeps_plain(s, b, e + 1);
        } else {
            assert(plain_at(s, b));
            lemma_significant_keeps_plain(s, b, e);
        }
    }
}

/// The token that reports the end of the input has an empty lexeme.
pub proof fn lemma_eof_is_empty(s: Seq<char>, pos: int)
    requires
        0 <= pos <= s.len(),
        scan_from(s, pos).token.kind == TokenType::Eof,
    ensures
        scan_from(s, pos).token.lexeme == Seq::<char>::empty(),
    decreases s.len() - pos,
{
    if !at_end(s, pos) {
        let b = run_end(s, pos, Run::Blank);
        lemma_run_end(s, pos, Run::Blank);
        if b < s.len() && comment_at(s, b) {
            lemma_run_end(s, b + 2, Run::Comment);
            lemma_eof_is_empty(s, comment_end(s, b));
        }
    }
}

/// One step of scanning takes its lexeme off the front of the significant
/// characters; a step that reports the end of the input takes nothing.
pub proof fn lemma_step_rejoins(s: Seq<char>, pos: int)
    requires
        0 <= pos <= s.len(),
        scan_from(s, pos).token.kind != TokenType::Unknown,
    ensures
        significant(s, pos) == scan_from(s, pos).token.lexeme + significant(
            s,
            scan_from(s, pos).end,
        ),
    decreases s.len() - pos,
{
    if at_end(s, pos) {
        assert(Seq::<char>::empty() + significant(s, pos) =~= significant(s, pos));
    } else {
        let b = run_end(s, pos, Run::Blank);
        lemma_run_end(s, pos, Run::Blank);
        lemma_significant_skips_blanks(s, pos);
        if b >= s.len() {
            assert(Seq::<char>::empty() + significant(s, b) =~= significant(s, b));
        } else if comment_at(s, b) {
            lemma_run_end(s, b + 2, Run::Comment);
            lemma_step_rejoins(s, comment_end(s, b));
        } else {
            lemma_token_is_source(s, b);
        }
    }
}

/// Joining the lexemes of all the tokens of a text gives back its
/// significant characters, up to where scanning stops: what is significant
/// from `pos` on is the joined lexemes followed by what is significant
/// behind the stop. This holds where no token is of kind `Unknown`, whose
/// lexeme is not its source text.
pub proof fn lemma_lexemes_rejoin(s: Seq<char>, pos: int)
    requires
        0 <= pos <= s.len(),
        forall|i: int|
            0 <= i < scan_all(s, pos).len() ==> (#[trigger] scan_all(s, pos)[i]).kind
                != TokenType::Unknown,
    ensures
        significant(s, pos) == joined(scan_all(s, pos)) + significant(s, scan_stop(s, pos)),
    decreases s.len() - pos,
{
    let next = scan_from(s, pos);
    let all = scan_all(s, pos);
    lemma_scan_from_bounds(s, pos);
    assert(all[0].kind != TokenType::Unknown);
    lemma_step_rejoins(s, pos);
    if next.token.kind != TokenType::Eof {
        let rest = scan_all(s, next.end);
        assert(all.drop_first() =~= rest);
        assert forall|i: int| 0 <= i < rest.len() implies (#[trigger] rest[i]).kind
            != TokenType::Unknown by {
            assert(rest[i] == all[i + 1]);
        }
        lemma_lexemes_rejoin(s, next.end);
        assert(scan_stop(s, pos) == scan_stop(s, next.end));
        assert(all[0] == next.token);
        assert(joined(all) == next.token.lexeme + joined(rest));
        assert(next.token.lexeme + (joined(rest) + significant(s, scan_stop(s, pos))) =~= (
        next.token.lexeme + joined(rest)) + significant(s, scan_stop(s, pos)));
    } else {
        assert(all.drop_first() =~= Seq::<TokenView>::empty());
        assert(joined(all) =~= Seq::<char>::empty()) by {
            assert(joined(all) == all[0].lexeme + joined(all.drop_first()));
        }
        assert(scan_stop(s, pos) == next.end);
        lemma_eof_is_empty(s, pos);
        assert(Seq::<char>::empty() + significant(s, next.end) =~= significant(s, next.end));
    }
}

/// Where scanning reaches the end of the text, the joined lexemes are
/// exactly the significant characters of the text.
pub proof fn lemma_lexemes_rejoin_whole(s: Seq<char>, pos: int)
    requires
        0 <= pos <= s.len(),
        forall|i: int|
            0 <= i < scan_all(s, pos).len() ==> (#[trigger] scan_all(s, pos)[i]).kind
                != TokenType::Unknown,
        significant(s, scan_stop(s, pos)).len() == 0,
    ensures
        joined(scan_all(s, pos)) == significant(s, pos),
{
    lemma_lexemes_rejoin(s, pos);
    assert(joined(scan_all(s, pos)) + significant(s, scan_stop(s, pos)) =~= joined(
        scan_all(s, pos),
    ));
}

/// Whether `lexeme` is decimal text: digits, with at most one point, which
/// has a digit on either side.
pub open spec fn is_decimal(lexeme: Seq<char>) -> bool {
    &&& lexeme.len() >= 1
    &&& is_digit(lexeme[0])
    &&& is_digit(lexeme[lexeme.len() - 1])
    &&& forall|i: int| 0 <= i < lexeme.len() ==> is_digit(#[trigger] lexeme[i]) || lexeme[i] == '.'
    &&& forall|i: int, j: int|
        0 <= i < j < lexeme.len() ==> !(#[trigger] lexeme[i] == '.' && #[trigger] lexeme[j] == '.')
}

/// A number token that starts at `b` holds decimal text.
pub proof fn lemma_number_token_is_decimal(s: Seq<char>, b: int)
    requires
        0 <= b < s.len(),
        scan_token(s, b).token.kind == TokenType::NumberLiteral,
    ensures
        is_decimal(scan_token(s, b).token.lexeme),
{
    let c = char_at(s, b);
    let lexeme = scan_token(s, b).token.lexeme;
    if c == '"' {
    } else if is_letter(c) {
        let w = run_end(s, b + 1, Run::Word);
        if keyword_kind(s.subrange(b, w)) is Some {
            lemma_keyword_shape(s.subrange(b, w));
        }
    } else if is_digit(c) {
        let e = b + 1;
        let d = run_end(s, e, Run::Digits);
        lemma_run_end(s, e, Run::Digits);
        assert forall|j: int| b <= j < d implies is_digit(s[j]) by {
            if b < j {
                assert(in_run(Run::Digits, s[j]));
            }
        }
        if char_at(s, d) == '.' && is_digit(char_at(s, d + 1)) {
            let f = run_end(s, d + 1, Run::Digits);
            lemma_run_end(s, d + 1, Run::Digits);
            assert(f > d + 1);
            assert forall|j: int| d < j < f implies is_digit(s[j]) by {
                assert(in_run(Run::Digits, s[j]));
            }
            assert(lexeme == s.subrange(b, f));
            assert forall|i: int| 0 <= i < lexeme.len() implies is_digit(#[trigger] lexeme[i])
                || lexeme[i] == '.' by {
                assert(lexeme[i] == s[b + i]);
            }
            assert forall|i: int, j: int| 0 <= i < j < lexeme.len() implies !(
            #[trigger] lexeme[i] == '.' && #[trigger] lexeme[j] == '.') by {
                assert(lexeme[i] == s[b + i]);
                assert(lexeme[j] == s[b + j]);
            }
            assert(lexeme[lexeme.len() - 1] == s[f - 1]);
        } else {
            assert(lexeme == s.subrange(b, d));
            assert forall|i: int| 0 <= i < lexeme.len() implies is_digit(#[trigger] lexeme[i])
                || lexeme[i] == '.' by {
                assert(lexeme[i] == s[b + i]);
            }
            assert forall|i: int, j: int| 0 <= i < j < lexeme.len() implies !(
            #[trigger] lexeme[i] == '.' && #[trigger] lexeme[j] == '.') by {
                assert(lexeme[i] == s[b + i]);
            }
            assert(lexeme[lexeme.len() - 1] == s[d - 1]);
        }
    } else {
    }
}

/// Every number token holds decimal text.
pub proof fn lemma_number_lexemes_are_decimal(s: Seq<char>, pos: int)
    requires
        0 <= pos <= s.len(),
        scan_from(s, pos).token.kind == TokenType::NumberLiteral,
    ensures
        is_decimal(scan_from(s, pos).token.lexeme),
    decreases s.len() - pos,
{
    if !at_end(s, pos) {
        let b = run_end(s, pos, Run::Blank);
        lemma_run_end(s, pos, Run::Blank);
        if b >= s.len() {
        } else if comment_at(s, b) {
            lemma_run_end(s, b + 2, Run::Comment);
            lemma_number_lexemes_are_decimal(s, comment_end(s, b));
        } else {
            lemma_number_token_is_decimal(s, b);
        }
    }
}

/// Among all the tokens of a text, each number token holds decimal text.
pub proof fn lemma_numbers_in_all_tokens(s: Seq<char>, pos: int)
    requires
        0 <= pos <= s.len(),
    ensures
        forall|i: int|
            0 <= i < scan_all(s, pos).len() && (#[trigger] scan_all(s, pos)[i]).kind
                == TokenType::NumberLiteral ==> is_decimal(scan_all(s, pos)[i].lexeme),
    decreases s.len() - pos,
{
    let next = scan_from(s, pos);
    lemma_scan_from_bounds(s, pos);
    if next.token.kind != TokenType::Eof {
        if next.token.kind == TokenType::NumberLiteral {
            lemma_number_lexemes_are_decimal(s, pos);
        }
        lemma_numbers_in_all_tokens(s, next.end);
        let rest = scan_all(s, next.end);
        assert forall|i: int|
            0 <= i < scan_all(s, pos).len() && (#[trigger] scan_all(s, pos)[i]).kind
                == TokenType::NumberLiteral implies is_decimal(scan_all(s, pos)[i].lexeme) by {
            if i > 0 {
                assert(scan_all(s, pos)[i] == rest[i - 1]);
            }
        }
    }
}

} // verus!
