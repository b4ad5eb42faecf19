use vstd::prelude::*;
use vstd::string::StringSliceAdditionalSpecFns;

verus! {

/// What a token stands for: a lower-case letter or another single byte, a
/// decimal number, or the bytes between `{` and `}`.
#[derive(Clone, Debug, PartialEq, Eq)]
pub enum TokenKind {
    Character(u8),
    Number(usize),
    BraceString(Vec<u8>),
}

/// The mathematical value of a token kind.
pub enum Tok {
    Character(u8),
    Number(usize),
    BraceString(Seq<u8>),
}

impl DeepView for TokenKind {
    type V = Tok;

    open spec fn deep_view(&self) -> Tok {
        match self {
            TokenKind::Character(c) => Tok::Character(*c),
            TokenKind::Number(n) => Tok::Number(*n),
            TokenKind::BraceString(s) => Tok::BraceString(s@),
        }
    }
}

impl TokenKind {
    pub fn is_character(&self) -> (r: bool)
        ensures
            r == (self is Character),
    {
        match self {
            TokenKind::Character(_) => true,
            _ => false,
        }
    }

    pub fn is_number(&self) -> (r: bool)
        ensures
            r == (self is Number),
    {
        match self {
            TokenKind::Number(_) => true,
            _ => false,
        }
    }

    pub fn is_brace_string(&self) -> (r: bool)
        ensures
            r == (self is BraceString),
    {
        match self {
            TokenKind::BraceString(_) => true,
            _ => false,
        }
    }

    /// A copy of this token kind.
    pub fn duplicate(&self) -> (r: TokenKind)
        ensures
            r.deep_view() == self.deep_view(),
    {
        match self {
            TokenKind::Character(c) => TokenKind::Character(*c),
            TokenKind::Number(n) => TokenKind::Number(*n),
            TokenKind::BraceString(s) => TokenKind::BraceString(s.clone()),
        }
    }

    /// The token as it is shown in diagnostics.
    pub fn text(&self) -> (r: String)
        ensures
            r@ == token_text(self.deep_view()),
    {
        match self {
            TokenKind::Character(c) => char_text(*c),
            TokenKind::Number(n) => number_text(*n),
            TokenKind::BraceString(s) => bytes_text(s),
        }
    }
}

/// How a token is shown: the character, the decimal number, or the brace
/// string's bytes as characters.
pub open spec fn token_text(t: Tok) -> Seq<char> {
    match t {
        Tok::Character(c) => seq![c as char],
        Tok::Number(n) => decimal(n as nat),
        Tok::BraceString(s) => chars_of(s),
    }
}

/// Each byte as the character of that code.
pub open spec fn chars_of(s: Seq<u8>) -> Seq<char> {
    Seq::new(s.len(), |i: int| s[i] as char)
}

/// The character of a decimal digit.
pub open spec fn digit_char(d: nat) -> char {
    ((48 + d) as u8) as char
}

/// The decimal digits of `n`, without leading zeros.
pub open spec fn decimal(n: nat) -> Seq<char>
    decreases n,
{
    if n < 10 {
        seq![digit_char(n)]
    } else {
        decimal(n / 10).push(digit_char(n % 10))
    }
}

/// Relies on `format!("{}", n)` for an unsigned integer: its decimal digits.
#[verifier::external_body]
pub(crate) fn number_text(n: usize) -> (r: String)
    ensures
        r@ == decimal(n as nat),
{
    format!("{}", n)
}

/// Relies on `String::from(char)`: the string of that one character.
#[verifier::external_body]
fn char_text(c: u8) -> (r: String)
    ensures
        r@ == seq![c as char],
{
    String::from(c as char)
}

/// Relies on `String + &str`: the first string followed by the second.
#[verifier::external_body]
pub(crate) fn concat_text(a: String, b: &str) -> (r: String)
    ensures
        r@ == a@ + b@,
{
    a + b
}

/// The bytes as characters, one for each.
fn bytes_text(s: &Vec<u8>) -> (r: String)
    ensures
        r@ == chars_of(s@),
{
    let mut text = String::new();
    let mut i: usize = 0;
    while i < s.len()
        invariant
            i <= s@.len(),
            text@ == chars_of(s@.subrange(0, i as int)),
        decreases s@.len() - i,
    {
        let c = char_text(s[i]);
        text = concat_text(text, c.as_str());
        i = i + 1;
        assert(text@ =~= chars_of(s@.subrange(0, i as int)));
    }
    assert(s@.subrange(0, i as int) =~= s@);
    text
}

/// A token and the 1-based position of its first character in the source.
pub type Token = (usize, TokenKind);

/// Why a text could not be split into tokens.
#[derive(Clone, Copy, Debug, PartialEq, Eq)]
pub enum TokenizeError {
    /// The text holds a character outside ASCII.
    NonAscii,
    /// The number that starts at this position does not fit in `usize`.
    TooBigNumber(usize),
    /// A `{` is never closed.
    UnexpectedEOF,
}

impl TokenizeError {
    /// A one-line diagnostic.
    pub fn message(&self) -> (r: String)
        ensures
            r@ == match self {
                TokenizeError::NonAscii => "MML must not include any non-ascii characters"@,
                TokenizeError::TooBigNumber(at) => "Too big number at "@ + decimal(*at as nat),
                TokenizeError::UnexpectedEOF => "Unexpected EOF"@,
            },
    {
        match self {
            TokenizeError::NonAscii => String::from_str(
                "MML must not include any non-ascii characters",
            ),
            TokenizeError::TooBigNumber(at) => concat_text(
                String::from_str("Too big number at "),
                number_text(*at).as_str(),
            ),
            TokenizeError::UnexpectedEOF => String::from_str("Unexpected EOF"),
        }
    }
}

pub open spec fn is_digit(b: u8) -> bool {
    48 <= b <= 57
}

pub open spec fn is_upper(b: u8) -> bool {
    65 <= b <= 90
}

/// ASCII whitespace: tab, line feed, vertical tab, form feed, carriage return, space.
pub open spec fn is_blank(b: u8) -> bool {
    b == 9 || b == 10 || b == 11 || b == 12 || b == 13 || b == 32
}

pub open spec fn not_blank(b: u8) -> bool {
    !is_blank(b)
}

/// Puts `prefix` in front of the tokens of a successful result.
pub open spec fn prepend(
    prefix: Seq<(usize, Tok)>,
    r: Result<Seq<(usize, Tok)>, TokenizeError>,
) -> Result<Seq<(usize, Tok)>, TokenizeError> {
    match r {
        Ok(rest) => Ok(prefix + rest),
        Err(e) => Err(e),
    }
}

/// The tokens of `s` from byte `i` on.
pub open spec fn lex(s: Seq<u8>, i: nat) -> Result<Seq<(usize, Tok)>, TokenizeError>
    decreases s.len() - i, 0nat,
{
    if i >= s.len() {
        Ok(Seq::empty())
    } else {
        let b = s[i as int];
        if is_digit(b) {
            lex_number(s, i, i + 1, (b - 48) as nat)
        } else if b == 123 {
            lex_brace(s, i, i + 1)
        } else if is_upper(b) {
            prepend(seq![((i + 1) as usize, Tok::Character((b + 32) as u8))], lex(s, i + 1))
        } else if is_blank(b) {
            lex(s, i + 1)
        } else {
            prepend(seq![((i + 1) as usize, Tok::Character(b))], lex(s, i + 1))
        }
    }
}

/// The tokens from a number that starts at `start`, whose digits before `j`
/// are worth `acc`.
pub open spec fn lex_number(s: Seq<u8>, start: nat, j: nat, acc: nat) -> Result<
    Seq<(usize, Tok)>,
    TokenizeError,
>
    decreases s.len() - j, 1nat,
{
    if acc > usize::MAX {
        Err(TokenizeError::TooBigNumber((start + 1) as usize))
    } else if j < s.len() && is_digit(s[j as int]) {
        lex_number(s, start, j + 1, acc * 10 + (s[j as int] - 48) as nat)
    } else {
        prepend(seq![((start + 1) as usize, Tok::Number(acc as usize))], lex(s, j))
    }
}

/// The tokens from a brace string opened at `start`, scanned up to `j`.
pub open spec fn lex_brace(s: Seq<u8>, start: nat, j: nat) -> Result<
    Seq<(usize, Tok)>,
    TokenizeError,
>
    decreases s.len() - j, 1nat,
{
    if j >= s.len() {
        Err(TokenizeError::UnexpectedEOF)
    } else if s[j as int] == 125 {
        let body = s.subrange((start + 1) as int, j as int).filter(|c: u8| not_blank(c));
        prepend(seq![((start + 1) as usize, Tok::BraceString(body))], lex(s, j + 1))
    } else {
        lex_brace(s, start, j + 1)
    }
}

/// Splits score text into tokens. Letters are folded to lower case outside
/// brace strings, whitespace is skipped, and each token records the 1-based
/// position of its first character.
pub fn tokenize(mml: &str) -> (r: Result<Vec<Token>, TokenizeError>)
    ensures
        !mml.is_ascii() ==> r == Err::<Vec<Token>, TokenizeError>(TokenizeError::NonAscii),
        mml.is_ascii() ==> match r {
            Ok(tokens) => lex(mml.spec_bytes(), 0) == Ok::<_, TokenizeError>(tokens.deep_view()),
            Err(e) => lex(mml.spec_bytes(), 0) == Err::<Seq<(usize, Tok)>, _>(e),
        },
{
    if !mml.is_ascii() {
        return Err(TokenizeError::NonAscii);
    }
    let s = mml.as_bytes();
    let ghost bytes = s@;
    let n = s.len();
    let mut tokens: Vec<Token> = Vec::new();
    let mut i: usize = 0;
    while i < n
        invariant
            n == s@.len(),
            bytes == s@,
            bytes == mml.spec_bytes(),
            mml.is_ascii(),
            i <= n,
            lex(bytes, 0) == prepend(tokens.deep_view(), lex(bytes, i as nat)),
        decreases n - i,
    {
        let b = s[i];
        if 48 <= b && b <= 57 {
            let start = i;
            let mut number: usize = (b - 48) as usize;
            let mut j: usize = i + 1;
            assert(lex(bytes, i as nat) == lex_number(bytes, i as nat, j as nat, number as nat));
            while j < n && 48 <= s[j] && s[j] <= 57
                invariant
                    n == s@.len(),
                    bytes == s@,
                    bytes == mml.spec_bytes(),
                    mml.is_ascii(),
                    start < j <= n,
                    lex(bytes, 0) == prepend(
                        tokens.deep_view(),
                        lex_number(bytes, start as nat, j as nat, number as nat),
                    ),
                decreases n - j,
            {
                let d = (s[j] - 48) as usize;
                let ghost next = number as nat * 10 + d as nat;
                assert(lex_number(bytes, start as nat, j as nat, number as nat) == lex_number(
                    bytes,
                    start as nat,
                    (j + 1) as nat,
                    next,
                ));
                match number.checked_mul(10) {
                    Some(m) => match m.checked_add(d) {
                        Some(v) => {
                            number = v;
                        },
                        None => {
                            return Err(TokenizeError::TooBigNumber(start + 1));
                        },
                    },
                    None => {
                        return Err(TokenizeError::TooBigNumber(start + 1));
                    },
                }
                j = j + 1;
            }
            let ghost before = tokens.deep_view();
            tokens.push((start + 1, TokenKind::Number(number)));
            assert(tokens.deep_view() =~= before + seq![((start + 1) as usize, Tok::Number(number))]);
            proof {
                lemma_prepend_assoc(before, seq![((start + 1) as usize, Tok::Number(number))], lex(bytes, j as nat));
            }
            i = j;
        } else if b == 123 {
            let start = i;
            let mut body: Vec<u8> = Vec::new();
            let mut j: usize = i + 1;
            assert(lex(bytes, i as nat) == lex_brace(bytes, i as nat, j as nat));
            while j < n && s[j] != 125
                invariant
                    n == s@.len(),
                    bytes == s@,
                    bytes == mml.spec_bytes(),
                    mml.is_ascii(),
                    start < j <= n,
                    body@ == bytes.subrange((start + 1) as int, j as int).filter(|c: u8| not_blank(c)),
                    lex(bytes, 0) == prepend(tokens.deep_view(), lex_brace(bytes, start as nat, j as nat)),
                decreases n - j,
            {
                let c = s[j];
                proof {
                    let pred = |c: u8| not_blank(c);
                    assert(bytes.subrange(start + 1, j + 1).drop_last() =~= bytes.subrange(start + 1, j as int));
                    reveal(Seq::filter);
                }
                if !(c == 9 || c == 10 || c == 11 || c == 12 || c == 13 || c == 32) {
                    body.push(c);
                }
                j = j + 1;
            }
            if j >= n {
                return Err(TokenizeError::UnexpectedEOF);
            }
            let ghost before = tokens.deep_view();
            let ghost b_view = body@;
            tokens.push((start + 1, TokenKind::BraceString(body)));
            assert(tokens.deep_view() =~= before + seq![((start + 1) as usize, Tok::BraceString(b_view))]);
            proof {
                lemma_prepend_assoc(before, seq![((start + 1) as usize, Tok::BraceString(b_view))], lex(bytes, (j + 1) as nat));
            }
            i = j + 1;
        } else if 65 <= b && b <= 90 {
            let ghost before = tokens.deep_view();
            tokens.push((i + 1, TokenKind::Character(b + 32)));
            assert(tokens.deep_view() =~= before + seq![((i + 1) as usize, Tok::Character((b + 32) as u8))]);
            proof {
                lemma_prepend_assoc(before, seq![((i + 1) as usize, Tok::Character((b + 32) as u8))], lex(bytes, (i + 1) as nat));
            }
            i = i + 1;
        } else if b == 9 || b == 10 || b == 11 || b == 12 || b == 13 || b == 32 {
            i = i + 1;
        } else {
            let ghost before = tokens.deep_view();
            tokens.push((i + 1, TokenKind::Character(b)));
            assert(tokens.deep_view() =~= before + seq![((i + 1) as usize, Tok::Character(b))]);
            proof {
                lemma_prepend_assoc(before, seq![((i + 1) as usize, Tok::Character(b))], lex(bytes, (i + 1) as nat));
            }
            i = i + 1;
        }
    }
    assert(tokens.deep_view() + Seq::<(usize, Tok)>::empty() =~= tokens.deep_view());
    Ok(tokens)
}

/// `prepend(a + b, r) == prepend(a, prepend(b, r))`.
pub proof fn lemma_prepend_assoc(
    a: Seq<(usize, Tok)>,
    b: Seq<(usize, Tok)>,
    r: Result<Seq<(usize, Tok)>, TokenizeError>,
)
    ensures
        prepend(a + b, r) == prepend(a, prepend(b, r)),
{
    match r {
        Ok(rest) => {
            assert(a + b + rest =~= a + (b + rest));
        },
        Err(_) => {},
    }
}


/// A byte with an upper-case letter folded to lower case.
pub open spec fn fold_case(b: u8) -> u8 {
    if is_upper(b) {
        (b + 32) as u8
    } else {
        b
    }
}

/// Case folding: outside brace strings, upper-case letters give the same
/// tokens as their lower-case forms. Here `t` is `s` with every letter in
/// lower case, and `s` holds no brace string.
pub proof fn lemma_case_fold(s: Seq<u8>, t: Seq<u8>, i: nat)
    requires
        t.len() == s.len(),
        forall|k: int| 0 <= k < s.len() ==> #[trigger] t[k] == fold_case(s[k]),
        forall|k: int| 0 <= k < s.len() ==> #[trigger] s[k] != 123,
    ensures
        lex(s, i) == lex(t, i),
    decreases s.len() - i, 0nat,
{
    if i < s.len() {
        let b = s[i as int];
        assert(t[i as int] == fold_case(b));
        if is_digit(b) {
            lemma_case_fold_number(s, t, i, i + 1, (b - 48) as nat);
        } else {
            lemma_case_fold(s, t, i + 1);
        }
    }
}

pub proof fn lemma_case_fold_number(s: Seq<u8>, t: Seq<u8>, start: nat, j: nat, acc: nat)
    requires
        t.len() == s.len(),
        forall|k: int| 0 <= k < s.len() ==> #[trigger] t[k] == fold_case(s[k]),
        forall|k: int| 0 <= k < s.len() ==> #[trigger] s[k] != 123,
    ensures
        lex_number(s, start, j, acc) == lex_number(t, start, j, acc),
    decreases s.len() - j, 1nat,
{
    if acc <= usize::MAX {
        if j < s.len() {
            assert(t[j as int] == fold_case(s[j as int]));
            if is_digit(s[j as int]) {
                lemma_case_fold_number(s, t, start, j + 1, acc * 10 + (s[j as int] - 48) as nat);
            } else {
                lemma_case_fold(s, t, j);
            }
        } else {
            lemma_case_fold(s, t, j);
        }
    }
}

/// No token is a whitespace character.
pub open spec fn no_blank_token(ts: Seq<(usize, Tok)>) -> bool {
    forall|k: int|
        0 <= k < ts.len() ==> !(#[trigger] ts[k].1 matches Tok::Character(c) && is_blank(c))
}

proof fn lemma_prepend_no_blank(a: Seq<(usize, Tok)>, r: Result<Seq<(usize, Tok)>, TokenizeError>)
    requires
        no_blank_token(a),
        r matches Ok(ts) ==> no_blank_token(ts),
    ensures
        prepend(a, r) matches Ok(ts) ==> no_blank_token(ts),
{
    if let Ok(rest) = r {
        let all = a + rest;
        assert forall|k: int| 0 <= k < all.len() implies !(#[trigger] all[k].1 matches Tok::Character(
            c,
        ) && is_blank(c)) by {
            if k < a.len() {
                assert(all[k] == a[k]);
            } else {
                assert(all[k] == rest[k - a.len()]);
            }
        }
    }
}

/// Whitespace never becomes a token.
pub proof fn lemma_no_blank_token(s: Seq<u8>, i: nat)
    ensures
        lex(s, i) matches Ok(ts) ==> no_blank_token(ts),
    decreases s.len() - i, 0nat,
{
    if i < s.len() {
        let b = s[i as int];
        if is_digit(b) {
            lemma_no_blank_token_number(s, i, i + 1, (b - 48) as nat);
        } else if b == 123 {
            lemma_no_blank_token_brace(s, i, i + 1);
        } else {
            lemma_no_blank_token(s, i + 1);
            if !is_blank(b) {
                let c = if is_upper(b) { (b + 32) as u8 } else { b };
                lemma_prepend_no_blank(seq![((i + 1) as usize, Tok::Character(c))], lex(s, i + 1));
            }
        }
    }
}

proof fn lemma_no_blank_token_number(s: Seq<u8>, start: nat, j: nat, acc: nat)
    ensures
        lex_number(s, start, j, acc) matches Ok(ts) ==> no_blank_token(ts),
    decreases s.len() - j, 1nat,
{
    if acc <= usize::MAX {
        if j < s.len() && is_digit(s[j as int]) {
            lemma_no_blank_token_number(s, start, j + 1, acc * 10 + (s[j as int] - 48) as nat);
        } else {
            lemma_no_blank_token(s, j);
            lemma_prepend_no_blank(
                seq![((start + 1) as usize, Tok::Number(acc as usize))],
                lex(s, j),
            );
        }
    }
}

proof fn lemma_no_blank_token_brace(s: Seq<u8>, start: nat, j: nat)
    ensures
        lex_brace(s, start, j) matches Ok(ts) ==> no_blank_token(ts),
    decreases s.len() - j, 1nat,
{
    if j < s.len() {
        if s[j as int] == 125 {
            let body = s.subrange((start + 1) as int, j as int).filter(|c: u8| not_blank(c));
            lemma_no_blank_token(s, j + 1);
            lemma_prepend_no_blank(
                seq![((start + 1) as usize, Tok::BraceString(body))],
                lex(s, j + 1),
            );
        } else {
            lemma_no_blank_token_brace(s, start, j + 1);
        }
    }
}

/// The value of the decimal digits `s[i..j]`.
pub open spec fn digits_value(s: Seq<u8>, i: nat, j: nat) -> nat
    decreases j - i,
{
    if j <= i {
        0
    } else {
        digits_value(s, i, (j - 1) as nat) * 10 + (s[j - 1] - 48) as nat
    }
}

/// A run of digits whose value does not fit in `usize` is rejected, with
/// the position of its first digit.
pub proof fn lemma_number_overflow(s: Seq<u8>, i: nat, j: nat)
    requires
        i < j <= s.len(),
        forall|k: int| i <= k < j ==> is_digit(#[trigger] s[k]),
        digits_value(s, i, j) > usize::MAX,
    ensures
        lex(s, i) == Err::<Seq<(usize, Tok)>, _>(TokenizeError::TooBigNumber((i + 1) as usize)),
{
    assert(is_digit(s[i as int]));
    assert(digits_value(s, i, i) == 0);
    assert(digits_value(s, i, i + 1) == (s[i as int] - 48) as nat);
    lemma_number_overflow_from(s, i, i + 1, j);
}

proof fn lemma_number_overflow_from(s: Seq<u8>, start: nat, k: nat, j: nat)
    requires
        start < k <= j <= s.len(),
        forall|m: int| start <= m < j ==> is_digit(#[trigger] s[m]),
        digits_value(s, start, j) > usize::MAX,
    ensures
        lex_number(s, start, k, digits_value(s, start, k)) == Err::<Seq<(usize, Tok)>, _>(
            TokenizeError::TooBigNumber((start + 1) as usize),
        ),
    decreases j - k,
{
    if digits_value(s, start, k) <= usize::MAX {
        if k == j {
            assert(false);
        } else {
            assert(is_digit(s[k as int]));
            assert(digits_value(s, start, k + 1) == digits_value(s, start, k) * 10 + (s[k as int]
                - 48) as nat);
            lemma_number_overflow_from(s, start, k + 1, j);
        }
    }
}

} // verus!
