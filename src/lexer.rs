use vstd::prelude::*;

verus! {

/// A lexical unit. `N` is the type of the numeric payload.
#[derive(Debug, PartialEq, Clone, Copy)]
pub enum Token<N> {
    Number(N),
    Pi,
    Euler,
    Plus,
    Minus,
    Multiply,
    Divide,
    Exponent,
    Abs,
    Sqrt,
    Log,
    Ln,
    Fact,
    Sin,
    Cos,
    Tg,
    Cotg,
    Sec,
    Csc,
    Asin,
    Acos,
    Atg,
    Actg,
    LParen,
    RParen,
    Comma,
    Eof,
}

} // verus!

verus! {

/// Inputs longer than this many characters are refused.
pub const MAX_INPUT_CHARS: usize = 10000;

/// A lexical problem. The offending text is left out of the token stream.
/// `S` is the type of the text that is reported.
#[derive(Debug, PartialEq, Clone)]
pub enum LexError<S> {
    InputTooLong,
    InvalidNumber(S),
    InvalidKeyword(S),
    UnrecognizedCharacter(S),
}

impl View for LexError<String> {
    type V = LexError<Seq<char>>;

    open spec fn view(&self) -> LexError<Seq<char>> {
        match self {
            LexError::InputTooLong => LexError::InputTooLong,
            LexError::InvalidNumber(s) => LexError::InvalidNumber(s@),
            LexError::InvalidKeyword(s) => LexError::InvalidKeyword(s@),
            LexError::UnrecognizedCharacter(s) => LexError::UnrecognizedCharacter(s@),
        }
    }
}

pub open spec fn is_digit(c: char) -> bool {
    '0' <= c && c <= '9'
}

/// Characters that make up a numeric literal.
pub open spec fn in_numeral(c: char) -> bool {
    is_digit(c) || c == '.'
}

/// Characters that make up a keyword.
pub open spec fn is_letter(c: char) -> bool {
    'a' <= c && c <= 'z'
}

pub open spec fn is_blank(c: char) -> bool {
    c == ' ' || c == '\t' || c == '\n' || c == '\r'
}

/// The token that a one-character symbol stands for.
pub open spec fn symbol<N>(c: char) -> Option<Token<N>> {
    if c == '+' {
        Some(Token::Plus)
    } else if c == '-' {
        Some(Token::Minus)
    } else if c == '*' {
        Some(Token::Multiply)
    } else if c == '/' {
        Some(Token::Divide)
    } else if c == '^' {
        Some(Token::Exponent)
    } else if c == '!' {
        Some(Token::Fact)
    } else if c == '(' {
        Some(Token::LParen)
    } else if c == ')' {
        Some(Token::RParen)
    } else if c == ',' {
        Some(Token::Comma)
    } else {
        None
    }
}

/// The token that a word of the language stands for.
pub open spec fn keyword<N>(w: Seq<char>) -> Option<Token<N>> {
    if w == "abs"@ {
        Some(Token::Abs)
    } else if w == "sqrt"@ {
        Some(Token::Sqrt)
    } else if w == "log"@ {
        Some(Token::Log)
    } else if w == "ln"@ {
        Some(Token::Ln)
    } else if w == "sin"@ {
        Some(Token::Sin)
    } else if w == "cos"@ {
        Some(Token::Cos)
    } else if w == "tg"@ {
        Some(Token::Tg)
    } else if w == "cotg"@ {
        Some(Token::Cotg)
    } else if w == "sec"@ {
        Some(Token::Sec)
    } else if w == "csc"@ {
        Some(Token::Csc)
    } else if w == "asin"@ {
        Some(Token::Asin)
    } else if w == "acos"@ {
        Some(Token::Acos)
    } else if w == "atg"@ {
        Some(Token::Atg)
    } else if w == "actg"@ {
        Some(Token::Actg)
    } else if w == "pi"@ {
        Some(Token::Pi)
    } else if w == "e"@ {
        Some(Token::Euler)
    } else {
        None
    }
}

pub open spec fn dot_count(w: Seq<char>) -> nat
    decreases w.len(),
{
    if w.len() == 0 {
        0
    } else {
        dot_count(w.drop_last()) + if w.last() == '.' {
            1nat
        } else {
            0nat
        }
    }
}

/// A run of digits and dots is a number when it holds at most one dot and at
/// least one digit.
pub open spec fn valid_numeral(w: Seq<char>) -> bool {
    dot_count(w) <= 1 && dot_count(w) < w.len()
}

/// Length of the run of numeral characters that starts at `i`.
pub open spec fn numeral_run(s: Seq<char>, i: int) -> nat
    decreases s.len() - i,
{
    if 0 <= i < s.len() && in_numeral(s[i]) {
        1 + numeral_run(s, i + 1)
    } else {
        0
    }
}

/// Length of the run of letters that starts at `i`.
pub open spec fn letter_run(s: Seq<char>, i: int) -> nat
    decreases s.len() - i,
{
    if 0 <= i < s.len() && is_letter(s[i]) {
        1 + letter_run(s, i + 1)
    } else {
        0
    }
}

proof fn lemma_runs_bounded(s: Seq<char>, i: int)
    requires
        0 <= i <= s.len(),
    ensures
        numeral_run(s, i) <= s.len() - i,
        letter_run(s, i) <= s.len() - i,
    decreases s.len() - i,
{
    if i < s.len() {
        lemma_runs_bounded(s, i + 1);
    }
}

/// End (exclusive) of the lexeme that starts at `i`, for a numeral or a word.
pub open spec fn lexeme_end(s: Seq<char>, i: int) -> int {
    if in_numeral(s[i]) {
        i + 1 + numeral_run(s, i + 1)
    } else {
        i + 1 + letter_run(s, i + 1)
    }
}

#[via_fn]
proof fn lex_decreases<N>(s: Seq<char>, i: int, read: spec_fn(Seq<char>) -> N) {
    if 0 <= i < s.len() {
        lemma_runs_bounded(s, i + 1);
    }
}

#[via_fn]
proof fn lex_errors_decreases(s: Seq<char>, i: int) {
    if 0 <= i < s.len() {
        lemma_runs_bounded(s, i + 1);
    }
}

/// The tokens of `s` from position `i` on, where `read` gives the value of
/// each numeric literal.
pub open spec fn lex_tokens<N>(s: Seq<char>, i: int, read: spec_fn(Seq<char>) -> N) -> Seq<Token<N>>
    decreases s.len() - i,
    via lex_decreases::<N>
{
    if i < 0 || i >= s.len() {
        seq![]
    } else {
        let c = s[i];
        if symbol::<N>(c) is Some {
            seq![symbol::<N>(c)->0] + lex_tokens(s, i + 1, read)
        } else if in_numeral(c) || is_letter(c) {
            let j = lexeme_end(s, i);
            let w = s.subrange(i, j);
            let rest = lex_tokens(s, j, read);
            if in_numeral(c) && valid_numeral(w) {
                seq![Token::Number(read(w))] + rest
            } else if is_letter(c) && keyword::<N>(w) is Some {
                seq![keyword::<N>(w)->0] + rest
            } else {
                rest
            }
        } else {
            lex_tokens(s, i + 1, read)
        }
    }
}

/// The lexical problems of `s` from position `i` on.
pub open spec fn lex_errors(s: Seq<char>, i: int) -> Seq<LexError<Seq<char>>>
    decreases s.len() - i,
    via lex_errors_decreases
{
    if i < 0 || i >= s.len() {
        seq![]
    } else {
        let c = s[i];
        if symbol::<()>(c) is Some || is_blank(c) {
            lex_errors(s, i + 1)
        } else if in_numeral(c) || is_letter(c) {
            let j = lexeme_end(s, i);
            let w = s.subrange(i, j);
            let rest = lex_errors(s, j);
            if in_numeral(c) && !valid_numeral(w) {
                seq![LexError::InvalidNumber(w)] + rest
            } else if is_letter(c) && keyword::<()>(w) is None {
                seq![LexError::InvalidKeyword(w)] + rest
            } else {
                rest
            }
        } else {
            seq![LexError::UnrecognizedCharacter(s.subrange(i, i + 1))] + lex_errors(s, i + 1)
        }
    }
}

/// What a sequence of reported problems says, as text.
pub open spec fn views(d: Seq<LexError<String>>) -> Seq<LexError<Seq<char>>> {
    d.map_values(|e: LexError<String>| e@)
}


/// A token with its numeric value left out.
pub open spec fn kind<N>(t: Token<N>) -> Token<()> {
    match t {
        Token::Number(_) => Token::Number(()),
        Token::Pi => Token::Pi,
        Token::Euler => Token::Euler,
        Token::Plus => Token::Plus,
        Token::Minus => Token::Minus,
        Token::Multiply => Token::Multiply,
        Token::Divide => Token::Divide,
        Token::Exponent => Token::Exponent,
        Token::Abs => Token::Abs,
        Token::Sqrt => Token::Sqrt,
        Token::Log => Token::Log,
        Token::Ln => Token::Ln,
        Token::Fact => Token::Fact,
        Token::Sin => Token::Sin,
        Token::Cos => Token::Cos,
        Token::Tg => Token::Tg,
        Token::Cotg => Token::Cotg,
        Token::Sec => Token::Sec,
        Token::Csc => Token::Csc,
        Token::Asin => Token::Asin,
        Token::Acos => Token::Acos,
        Token::Atg => Token::Atg,
        Token::Actg => Token::Actg,
        Token::LParen => Token::LParen,
        Token::RParen => Token::RParen,
        Token::Comma => Token::Comma,
        Token::Eof => Token::Eof,
    }
}

pub open spec fn kinds<N>(ts: Seq<Token<N>>) -> Seq<Token<()>> {
    ts.map_values(|t: Token<N>| kind(t))
}

/// The kinds of the tokens of `s` from position `i` on.
pub open spec fn lex_shape(s: Seq<char>, i: int) -> Seq<Token<()>> {
    lex_tokens(s, i, |w: Seq<char>| ())
}

proof fn lemma_kinds_push<N>(ts: Seq<Token<N>>, t: Token<N>)
    ensures
        kinds(ts.push(t)) == kinds(ts).push(kind(t)),
{
    assert(kinds(ts.push(t)) =~= kinds(ts).push(kind(t)));
}

/// `read` gives, for the text of each literal, the one value that `number`
/// returns for it.
pub open spec fn reads_as<N, F: Fn(&str) -> N>(number: F, read: spec_fn(Seq<char>) -> N) -> bool {
    forall|t: &str, v: N| #[trigger] number.ensures((t,), v) ==> v == read(t@)
}

} // verus!

verus! {

fn symbol_token<N>(c: char) -> (r: Option<Token<N>>)
    ensures
        r == symbol::<N>(c),
{
    match c {
        '+' => Some(Token::Plus),
        '-' => Some(Token::Minus),
        '*' => Some(Token::Multiply),
        '/' => Some(Token::Divide),
        '^' => Some(Token::Exponent),
        '!' => Some(Token::Fact),
        '(' => Some(Token::LParen),
        ')' => Some(Token::RParen),
        ',' => Some(Token::Comma),
        _ => None,
    }
}

/// Whether `c` extends a numeral (when `numeral`) or a word.
fn continues_run(c: char, numeral: bool) -> (r: bool)
    ensures
        r == if numeral {
            in_numeral(c)
        } else {
            is_letter(c)
        },
{
    if numeral {
        ('0' <= c && c <= '9') || c == '.'
    } else {
        'a' <= c && c <= 'z'
    }
}

fn report(diagnostics: &mut Vec<LexError<String>>, e: LexError<String>)
    ensures
        views(final(diagnostics)@) == views(old(diagnostics)@).push(e@),
{
    diagnostics.push(e);
    assert(views(diagnostics@) =~= views(old(diagnostics)@).push(e@));
}

fn is_blank_char(c: char) -> (r: bool)
    ensures
        r == is_blank(c),
{
    c == ' ' || c == '\t' || c == '\n' || c == '\r'
}

/// Whether `chars[lo..hi]` spells `word`.
fn spells(chars: &Vec<char>, lo: usize, hi: usize, word: &str) -> (r: bool)
    requires
        lo <= hi <= chars.len(),
    ensures
        r == (chars@.subrange(lo as int, hi as int) == word@),
{
    let n = word.unicode_len();
    if hi - lo != n {
        return false;
    }
    let mut k: usize = 0;
    while k < n
        invariant
            k <= n,
            n == word@.len(),
            hi - lo == n,
            lo <= hi <= chars.len(),
            chars@.subrange(lo as int, lo + k) == word@.subrange(0, k as int),
        decreases n - k,
    {
        if chars[lo + k] != word.get_char(k) {
            assert(chars@.subrange(lo as int, hi as int)[k as int] != word@[k as int]);
            return false;
        }
        assert(chars@.subrange(lo as int, lo + k + 1) =~= word@.subrange(0, k + 1));
        k = k + 1;
    }
    assert(word@.subrange(0, n as int) =~= word@);
    true
}

fn keyword_token<N>(chars: &Vec<char>, lo: usize, hi: usize) -> (r: Option<Token<N>>)
    requires
        lo <= hi <= chars.len(),
    ensures
        r == keyword::<N>(chars@.subrange(lo as int, hi as int)),
{
    if spells(chars, lo, hi, "abs") {
        Some(Token::Abs)
    } else if spells(chars, lo, hi, "sqrt") {
        Some(Token::Sqrt)
    } else if spells(chars, lo, hi, "log") {
        Some(Token::Log)
    } else if spells(chars, lo, hi, "ln") {
        Some(Token::Ln)
    } else if spells(chars, lo, hi, "sin") {
        Some(Token::Sin)
    } else if spells(chars, lo, hi, "cos") {
        Some(Token::Cos)
    } else if spells(chars, lo, hi, "tg") {
        Some(Token::Tg)
    } else if spells(chars, lo, hi, "cotg") {
        Some(Token::Cotg)
    } else if spells(chars, lo, hi, "sec") {
        Some(Token::Sec)
    } else if spells(chars, lo, hi, "csc") {
        Some(Token::Csc)
    } else if spells(chars, lo, hi, "asin") {
        Some(Token::Asin)
    } else if spells(chars, lo, hi, "acos") {
        Some(Token::Acos)
    } else if spells(chars, lo, hi, "atg") {
        Some(Token::Atg)
    } else if spells(chars, lo, hi, "actg") {
        Some(Token::Actg)
    } else if spells(chars, lo, hi, "pi") {
        Some(Token::Pi)
    } else if spells(chars, lo, hi, "e") {
        Some(Token::Euler)
    } else {
        None
    }
}

fn numeral_is_valid(chars: &Vec<char>, lo: usize, hi: usize) -> (r: bool)
    requires
        lo <= hi <= chars.len(),
    ensures
        r == valid_numeral(chars@.subrange(lo as int, hi as int)),
{
    let mut dots: usize = 0;
    let mut k: usize = lo;
    while k < hi
        invariant
            lo <= k <= hi <= chars.len(),
            dots == dot_count(chars@.subrange(lo as int, k as int)),
            dots <= k - lo,
        decreases hi - k,
    {
        assert(chars@.subrange(lo as int, k + 1).drop_last() =~= chars@.subrange(lo as int, k as int));
        if chars[k] == '.' {
            dots = dots + 1;
        }
        k = k + 1;
    }
    dots <= 1 && dots < hi - lo
}

fn chars_of(s: &str) -> (r: Vec<char>)
    ensures
        r@ == s@,
{
    let mut v: Vec<char> = Vec::new();
    for c in it: s.chars()
        invariant
            it.seq() == s@,
            v@ == it.seq().take(it.index() as int),
    {
        v.push(c);
    }
    v
}

/// Converts text into tokens, collecting what it has to leave out.
pub struct Lexer<N> {
    pub tokens: Vec<Token<N>>,
    pub diagnostics: Vec<LexError<String>>,
}

impl<N: Copy> Lexer<N> {
    pub fn new() -> (r: Self)
        ensures
            r.tokens@ == Seq::<Token<N>>::empty(),
            r.diagnostics@ == Seq::<LexError<String>>::empty(),
    {
        Lexer { tokens: Vec::new(), diagnostics: Vec::new() }
    }

    /// Splits `input` into tokens, ending with `Eof`; `number` gives the value
    /// of each numeric literal. Text that forms no token is reported in
    /// `diagnostics` and skipped. An input over `MAX_INPUT_CHARS` characters
    /// is refused: the tokens stay as they were. Whatever `number` returns,
    /// the kinds of the tokens are those of `lex_shape`, and `Eof` comes last
    /// and only there.
    pub fn tokenize<F: Fn(&str) -> N>(&mut self, input: &str, number: &F)
        requires
            forall|t: &str| valid_numeral(t@) ==> #[trigger] number.requires((t,)),
        ensures
            input@.len() > MAX_INPUT_CHARS ==> {
                &&& final(self).tokens@ == old(self).tokens@
                &&& final(self).diagnostics@ == seq![LexError::<String>::InputTooLong]
            },
            input@.len() <= MAX_INPUT_CHARS ==> {
                &&& forall|read: spec_fn(Seq<char>) -> N| #[trigger]
                    reads_as(*number, read) ==> final(self).tokens@ == lex_tokens(input@, 0, read).push(
                        Token::Eof,
                    )
                &&& views(final(self).diagnostics@) == lex_errors(input@, 0)
                &&& kinds(final(self).tokens@) == lex_shape(input@, 0).push(Token::Eof)
                &&& forall|k: int| 0 <= k < final(self).tokens.len() - 1 ==> !(#[trigger] final(self).tokens[k] is Eof)
            },
    {
        let len = input.unicode_len();
        if len > MAX_INPUT_CHARS {
            self.diagnostics = vec![LexError::InputTooLong];
            return;
        }
        let chars = chars_of(input);
        let ghost s = input@;
        let mut tokens: Vec<Token<N>> = Vec::new();
        let mut diagnostics: Vec<LexError<String>> = Vec::new();
        let mut i: usize = 0;
        while i < len
            invariant
                s == input@,
                chars@ == s,
                len == s.len(),
                i <= len,
                forall|t: &str| valid_numeral(t@) ==> #[trigger] number.requires((t,)),
                forall|read: spec_fn(Seq<char>) -> N| #[trigger]
                    reads_as(*number, read) ==> lex_tokens(s, 0, read) == tokens@ + lex_tokens(s, i as int, read),
                lex_errors(s, 0) == views(diagnostics@) + lex_errors(s, i as int),
                lex_shape(s, 0) == kinds(tokens@) + lex_shape(s, i as int),
                forall|k: int| 0 <= k < tokens.len() ==> !(#[trigger] tokens[k] is Eof),
            decreases len - i,
        {
            let c = chars[i];
            let ghost before_tokens = tokens@;
            let ghost before_errors = views(diagnostics@);
            if let Some(t) = symbol_token::<N>(c) {
                proof {
                    lemma_kinds_push(tokens@, t);
                    assert(kind(t) == symbol::<()>(c)->0);
                    assert(kinds(before_tokens) + lex_shape(s, i as int) =~= kinds(tokens@.push(t)) + lex_shape(s, i + 1));
                }
                tokens.push(t);
                i = i + 1;
                assert forall|read: spec_fn(Seq<char>) -> N| #[trigger]
                    reads_as(*number, read) implies lex_tokens(s, 0, read) == tokens@ + lex_tokens(s, i as int, read) by {
                    assert(lex_tokens(s, i - 1, read) == seq![t] + lex_tokens(s, i as int, read));
                    assert(before_tokens + lex_tokens(s, i - 1, read) =~= tokens@ + lex_tokens(s, i as int, read));
                }
            } else if ('0' <= c && c <= '9') || c == '.' || ('a' <= c && c <= 'z') {
                let numeral = ('0' <= c && c <= '9') || c == '.';
                let mut j: usize = i + 1;
                proof {
                    lemma_runs_bounded(s, i + 1);
                }
                while j < len && continues_run(chars[j], numeral)
                    invariant
                        chars@ == s,
                        len == s.len(),
                        i < j <= len,
                        numeral == in_numeral(s[i as int]),
                        numeral ==> i + 1 + numeral_run(s, i + 1) == j + numeral_run(s, j as int),
                        !numeral ==> i + 1 + letter_run(s, i + 1) == j + letter_run(s, j as int),
                    decreases len - j,
                {
                    j = j + 1;
                }
                assert(j == lexeme_end(s, i as int));
                let ghost w = s.subrange(i as int, j as int);
                assert(chars@.subrange(i as int, j as int) == w);
                if numeral {
                    let text = input.substring_char(i, j);
                    if numeral_is_valid(&chars, i, j) {
                        let v = number(text);
                        proof {
                            lemma_kinds_push(tokens@, Token::Number(v));
                            assert(kinds(before_tokens) + lex_shape(s, i as int) =~= kinds(tokens@.push(Token::Number(v))) + lex_shape(s, j as int));
                        }
                        tokens.push(Token::Number(v));
                        assert forall|read: spec_fn(Seq<char>) -> N| #[trigger]
                            reads_as(*number, read) implies lex_tokens(s, 0, read) == tokens@ + lex_tokens(s, j as int, read) by {
                            assert(number.ensures((text,), v));
                            assert(v == read(w));
                            assert(before_tokens + lex_tokens(s, i as int, read) =~= tokens@ + lex_tokens(s, j as int, read));
                        }
                    } else {
                        report(&mut diagnostics, LexError::InvalidNumber(text.to_owned()));
                        assert(before_errors + lex_errors(s, i as int) =~= views(diagnostics@) + lex_errors(s, j as int));
                    }
                } else {
                    if let Some(t) = keyword_token::<N>(&chars, i, j) {
                        proof {
                            lemma_kinds_push(tokens@, t);
                            assert(kind(t) == keyword::<()>(w)->0);
                            assert(kinds(before_tokens) + lex_shape(s, i as int) =~= kinds(tokens@.push(t)) + lex_shape(s, j as int));
                        }
                        tokens.push(t);
                        assert forall|read: spec_fn(Seq<char>) -> N| #[trigger]
                            reads_as(*number, read) implies lex_tokens(s, 0, read) == tokens@ + lex_tokens(s, j as int, read) by {
                            assert(before_tokens + lex_tokens(s, i as int, read) =~= tokens@ + lex_tokens(s, j as int, read));
                        }
                    } else {
                        report(&mut diagnostics, LexError::InvalidKeyword(input.substring_char(i, j).to_owned()));
                        assert(before_errors + lex_errors(s, i as int) =~= views(diagnostics@) + lex_errors(s, j as int));
                    }
                }
                i = j;
            } else if is_blank_char(c) {
                i = i + 1;
            } else {
                report(&mut diagnostics, LexError::UnrecognizedCharacter(input.substring_char(i, i + 1).to_owned()));
                assert(before_errors + lex_errors(s, i as int) =~= views(diagnostics@) + lex_errors(s, i + 1));
                i = i + 1;
            }
        }
        proof {
            lemma_kinds_push(tokens@, Token::Eof);
            assert(lex_shape(s, 0) =~= kinds(tokens@));
        }
        tokens.push(Token::Eof);
        assert forall|read: spec_fn(Seq<char>) -> N| #[trigger]
            reads_as(*number, read) implies tokens@ == lex_tokens(s, 0, read).push(Token::Eof) by {
            assert(lex_tokens(s, 0, read) =~= tokens@.drop_last());
        }
        assert(views(diagnostics@) =~= lex_errors(s, 0));
        self.tokens = tokens;
        self.diagnostics = diagnostics;
    }
}

} // verus!

