use vstd::prelude::*;
use vstd::string::*;
use crate::number::{NumVal, canon_mag, pow10};

verus! {

/// The closed set of lexical token kinds.
#[allow(non_camel_case_types)]
#[derive(Debug, Copy, Clone, PartialEq, Eq, Structural)]
pub enum TokenType {
    LEFT_PAREN,
    RIGHT_PAREN,
    LEFT_BRACE,
    RIGHT_BRACE,
    COMMA,
    DOT,
    MINUS,
    PLUS,
    SEMICOLON,
    SLASH,
    STAR,
    BANG,
    BANG_EQUAL,
    EQUAL,
    EQUAL_EQUAL,
    GREATER,
    GREATER_EQUAL,
    LESS,
    LESS_EQUAL,
    IDENTIFIER,
    STRING,
    NUMBER,
    AND,
    CLASS,
    ELSE,
    FALSE,
    FUN,
    FOR,
    IF,
    NIL,
    OR,
    PRINT,
    RETURN,
    SUPER,
    THIS,
    TRUE,
    VAR,
    WHILE,
    EoF,
}

/// The literal payload of a number, string, or identifier token.
#[derive(Debug, Clone, PartialEq)]
pub enum LiteralValue {
    NumberValue(NumVal),
    StringValue(String),
    IdentifierVal(String),
}

/// The mathematical shape of a literal payload.
pub enum SLit {
    SNum(NumVal),
    SStr(Seq<char>),
    SIdent(Seq<char>),
}

impl View for LiteralValue {
    type V = SLit;

    open spec fn view(&self) -> SLit {
        match self {
            LiteralValue::NumberValue(n) => SLit::SNum(*n),
            LiteralValue::StringValue(s) => SLit::SStr(s@),
            LiteralValue::IdentifierVal(s) => SLit::SIdent(s@),
        }
    }
}

/// One lexical token.
#[derive(Debug, Clone)]
pub struct Token {
    pub token_type: TokenType,
    pub lexeme: String,
    pub literal: Option<LiteralValue>,
    pub line_number: u64,
}

/// The mathematical shape of a token.
pub struct SToken {
    pub token_type: TokenType,
    pub lexeme: Seq<char>,
    pub literal: Option<SLit>,
    pub line_number: u64,
}

impl View for Token {
    type V = SToken;

    open spec fn view(&self) -> SToken {
        SToken {
            token_type: self.token_type,
            lexeme: self.lexeme@,
            literal: match self.literal {
                Some(l) => Some(l@),
                None => None,
            },
            line_number: self.line_number,
        }
    }
}

/// What a lexical diagnostic reports.
#[derive(Debug, Clone, Copy, PartialEq, Eq)]
pub enum LexErrorKind {
    /// A character no rule recognizes.
    UnrecognizedChar(char),
    /// A string literal still open at end of input.
    UnterminatedString,
    /// A number literal beyond the machine representation.
    NumberTooLarge,
}

/// A lexical diagnostic: what was found and on which line.
#[derive(Debug, Clone, Copy, PartialEq, Eq)]
pub struct LexError {
    pub kind: LexErrorKind,
    pub line: u64,
}

pub open spec fn is_digit_spec(c: char) -> bool {
    '0' <= c && c <= '9'
}

pub open spec fn is_alpha_spec(c: char) -> bool {
    ('a' <= c && c <= 'z') || ('A' <= c && c <= 'Z') || c == '_'
}

pub open spec fn is_alpha_numeric_spec(c: char) -> bool {
    is_alpha_spec(c) || is_digit_spec(c)
}

/// Whether the character is a decimal digit.
pub fn is_digit(ch: char) -> (r: bool)
    ensures
        r == is_digit_spec(ch),
{
    '0' <= ch && ch <= '9'
}

/// Whether the character can start an identifier.
pub fn is_alpha(ch: char) -> (r: bool)
    ensures
        r == is_alpha_spec(ch),
{
    ('a' <= ch && ch <= 'z') || ('A' <= ch && ch <= 'Z') || ch == '_'
}

/// Whether the character can continue an identifier.
pub fn is_alpha_numeric(ch: char) -> (r: bool)
    ensures
        r == is_alpha_numeric_spec(ch),
{
    is_alpha(ch) || is_digit(ch)
}

/// The numeric value of a digit character.
pub open spec fn digit_of(c: char) -> nat {
    if is_digit_spec(c) {
        (c as int - '0' as int) as nat
    } else {
        0
    }
}

/// The token kind reserved for the given identifier text, if any.
pub open spec fn keyword_spec(s: Seq<char>) -> Option<TokenType> {
    if s == "and"@ {
        Some(TokenType::AND)
    } else if s == "class"@ {
        Some(TokenType::CLASS)
    } else if s == "else"@ {
        Some(TokenType::ELSE)
    } else if s == "false"@ {
        Some(TokenType::FALSE)
    } else if s == "for"@ {
        Some(TokenType::FOR)
    } else if s == "fun"@ {
        Some(TokenType::FUN)
    } else if s == "if"@ {
        Some(TokenType::IF)
    } else if s == "nil"@ {
        Some(TokenType::NIL)
    } else if s == "or"@ {
        Some(TokenType::OR)
    } else if s == "print"@ {
        Some(TokenType::PRINT)
    } else if s == "return"@ {
        Some(TokenType::RETURN)
    } else if s == "super"@ {
        Some(TokenType::SUPER)
    } else if s == "this"@ {
        Some(TokenType::THIS)
    } else if s == "true"@ {
        Some(TokenType::TRUE)
    } else if s == "var"@ {
        Some(TokenType::VAR)
    } else if s == "while"@ {
        Some(TokenType::WHILE)
    } else {
        None
    }
}

/// The keyword table: each reserved word beside its token kind.
pub open spec fn keyword_table() -> Seq<(Seq<char>, TokenType)> {
    seq![
        ("and"@, TokenType::AND),
        ("class"@, TokenType::CLASS),
        ("else"@, TokenType::ELSE),
        ("false"@, TokenType::FALSE),
        ("for"@, TokenType::FOR),
        ("fun"@, TokenType::FUN),
        ("if"@, TokenType::IF),
        ("nil"@, TokenType::NIL),
        ("or"@, TokenType::OR),
        ("print"@, TokenType::PRINT),
        ("return"@, TokenType::RETURN),
        ("super"@, TokenType::SUPER),
        ("this"@, TokenType::THIS),
        ("true"@, TokenType::TRUE),
        ("var"@, TokenType::VAR),
        ("while"@, TokenType::WHILE),
    ]
}

/// The reserved words, each beside its token kind.
pub fn get_keywords_hashmap() -> (r: Vec<(String, TokenType)>)
    ensures
        r@.len() == keyword_table().len(),
        forall|i: int|
            0 <= i < r@.len() ==> r@[i].0@ == keyword_table()[i].0 && r@[i].1
                == keyword_table()[i].1,
{
    let mut v: Vec<(String, TokenType)> = Vec::new();
    v.push((String::from_str("and"), TokenType::AND));
    v.push((String::from_str("class"), TokenType::CLASS));
    v.push((String::from_str("else"), TokenType::ELSE));
    v.push((String::from_str("false"), TokenType::FALSE));
    v.push((String::from_str("for"), TokenType::FOR));
    v.push((String::from_str("fun"), TokenType::FUN));
    v.push((String::from_str("if"), TokenType::IF));
    v.push((String::from_str("nil"), TokenType::NIL));
    v.push((String::from_str("or"), TokenType::OR));
    v.push((String::from_str("print"), TokenType::PRINT));
    v.push((String::from_str("return"), TokenType::RETURN));
    v.push((String::from_str("super"), TokenType::SUPER));
    v.push((String::from_str("this"), TokenType::THIS));
    v.push((String::from_str("true"), TokenType::TRUE));
    v.push((String::from_str("var"), TokenType::VAR));
    v.push((String::from_str("while"), TokenType::WHILE));
    v
}

/// The reserved-word kind for the given text, if any.
pub fn keyword_kind(s: &String) -> (r: Option<TokenType>)
    ensures
        r == keyword_spec(s@),
{
    if *s == String::from_str("and") {
        Some(TokenType::AND)
    } else if *s == String::from_str("class") {
        Some(TokenType::CLASS)
    } else if *s == String::from_str("else") {
        Some(TokenType::ELSE)
    } else if *s == String::from_str("false") {
        Some(TokenType::FALSE)
    } else if *s == String::from_str("for") {
        Some(TokenType::FOR)
    } else if *s == String::from_str("fun") {
        Some(TokenType::FUN)
    } else if *s == String::from_str("if") {
        Some(TokenType::IF)
    } else if *s == String::from_str("nil") {
        Some(TokenType::NIL)
    } else if *s == String::from_str("or") {
        Some(TokenType::OR)
    } else if *s == String::from_str("print") {
        Some(TokenType::PRINT)
    } else if *s == String::from_str("return") {
        Some(TokenType::RETURN)
    } else if *s == String::from_str("super") {
        Some(TokenType::SUPER)
    } else if *s == String::from_str("this") {
        Some(TokenType::THIS)
    } else if *s == String::from_str("true") {
        Some(TokenType::TRUE)
    } else if *s == String::from_str("var") {
        Some(TokenType::VAR)
    } else if *s == String::from_str("while") {
        Some(TokenType::WHILE)
    } else {
        None
    }
}

/// The length of the run of decimal digits starting at `i`.
pub open spec fn digits_len(s: Seq<char>, i: int) -> nat
    decreases s.len() - i
        when i >= 0
{
    if 0 <= i < s.len() && is_digit_spec(s[i]) {
        1 + digits_len(s, i + 1)
    } else {
        0
    }
}

/// The length of the run of identifier characters starting at `i`.
pub open spec fn ident_len(s: Seq<char>, i: int) -> nat
    decreases s.len() - i
        when i >= 0
{
    if 0 <= i < s.len() && is_alpha_numeric_spec(s[i]) {
        1 + ident_len(s, i + 1)
    } else {
        0
    }
}

/// The length of a line comment's body starting at `i`: everything up to,
/// and not including, the next newline or the end of input.
pub open spec fn comment_len(s: Seq<char>, i: int) -> nat
    decreases s.len() - i
        when i >= 0
{
    if 0 <= i < s.len() && s[i] != '\n' {
        1 + comment_len(s, i + 1)
    } else {
        0
    }
}

/// What scanning a string literal's body from `i` finds: its length, the
/// newlines inside it, and whether a closing quote was reached.
pub struct StrScan {
    pub body: nat,
    pub newlines: nat,
    pub closed: bool,
}

pub open spec fn str_scan(s: Seq<char>, i: int) -> StrScan
    decreases s.len() - i
        when i >= 0
{
    if !(0 <= i < s.len()) {
        StrScan { body: 0, newlines: 0, closed: false }
    } else if s[i] == '"' {
        StrScan { body: 0, newlines: 0, closed: true }
    } else {
        let rest = str_scan(s, i + 1);
        StrScan {
            body: rest.body + 1,
            newlines: rest.newlines + if s[i] == '\n' {
                1nat
            } else {
                0nat
            },
            closed: rest.closed,
        }
    }
}

/// The numeric value of the digit run `s[i .. i + n]`.
pub open spec fn digits_val(s: Seq<char>, i: int, n: nat) -> nat
    decreases n,
{
    if n == 0 {
        0
    } else {
        digits_val(s, i, (n - 1) as nat) * 10 + digit_of(s[i + n - 1])
    }
}

/// The shape of a number literal starting at the digit at `i`: how many
/// characters it spans and the values of its whole and fraction parts.
pub struct NumScan {
    pub len: nat,
    pub whole: nat,
    pub frac_len: nat,
    pub frac: nat,
}

pub open spec fn num_scan(s: Seq<char>, i: int) -> NumScan {
    let n1 = digits_len(s, i);
    if i + n1 < s.len() && s[i + n1] == '.' && i + n1 + 1 < s.len() && is_digit_spec(
        s[i + n1 + 1],
    ) {
        let n2 = digits_len(s, i + n1 + 1);
        NumScan {
            len: (n1 + 1 + n2) as nat,
            whole: digits_val(s, i, n1),
            frac_len: n2,
            frac: digits_val(s, i + n1 + 1, n2),
        }
    } else {
        NumScan { len: n1, whole: digits_val(s, i, n1), frac_len: 0, frac: 0 }
    }
}

/// The exact numerator of a scanned number over `pow10(frac_len)`.
pub open spec fn num_scan_numerator(ns: NumScan) -> nat {
    ns.whole * pow10(ns.frac_len) + ns.frac
}

/// A scanned number is representable when its fraction is no longer than
/// 19 digits and its numerator fits the numerator type.
pub open spec fn num_scan_fits(ns: NumScan) -> bool {
    ns.frac_len <= 19 && num_scan_numerator(ns) <= i64::MAX
}

/// The value of a representable scanned number, in lowest terms.
pub open spec fn num_scan_value(ns: NumScan) -> NumVal {
    let c = canon_mag(num_scan_numerator(ns), pow10(ns.frac_len));
    NumVal { num: c.0 as i64, den: c.1 as u64 }
}

/// What one step of the lexer does at position `i`: the token or
/// diagnostic it yields, how many characters it consumes, and the line
/// count after it.
pub struct LexStep {
    pub token: Option<SToken>,
    pub error: Option<LexError>,
    pub consumed: nat,
    pub line_after: u64,
}

pub open spec fn skip_step(n: nat, line: u64) -> LexStep {
    LexStep { token: None, error: None, consumed: n, line_after: line }
}

pub open spec fn simple_tok(s: Seq<char>, i: int, line: u64, tt: TokenType, n: nat) -> LexStep {
    LexStep {
        token: Some(
            SToken {
                token_type: tt,
                lexeme: s.subrange(i, i + n),
                literal: None,
                line_number: line,
            },
        ),
        error: None,
        consumed: n,
        line_after: line,
    }
}

/// Maximal munch for `!`, `=`, `<`, `>`: take the two-character operator
/// when `=` follows, the single-character one otherwise.
pub open spec fn two_char_step(
    s: Seq<char>,
    i: int,
    line: u64,
    single: TokenType,
    double: TokenType,
) -> LexStep {
    if i + 1 < s.len() && s[i + 1] == '=' {
        simple_tok(s, i, line, double, 2)
    } else {
        simple_tok(s, i, line, single, 1)
    }
}

pub open spec fn lex_string(s: Seq<char>, i: int, line: u64) -> LexStep {
    let sc = str_scan(s, i + 1);
    let nline = (line + sc.newlines) as u64;
    if sc.closed {
        LexStep {
            token: Some(
                SToken {
                    token_type: TokenType::STRING,
                    lexeme: s.subrange(i, i + 2 + sc.body),
                    literal: Some(SLit::SStr(s.subrange(i + 1, i + 1 + sc.body))),
                    line_number: nline,
                },
            ),
            error: None,
            consumed: sc.body + 2,
            line_after: nline,
        }
    } else {
        LexStep {
            token: None,
            error: Some(LexError { kind: LexErrorKind::UnterminatedString, line: nline }),
            consumed: sc.body + 1,
            line_after: nline,
        }
    }
}

pub open spec fn lex_number(s: Seq<char>, i: int, line: u64) -> LexStep {
    let ns = num_scan(s, i);
    if num_scan_fits(ns) {
        LexStep {
            token: Some(
                SToken {
                    token_type: TokenType::NUMBER,
                    lexeme: s.subrange(i, i + ns.len),
                    literal: Some(SLit::SNum(num_scan_value(ns))),
                    line_number: line,
                },
            ),
            error: None,
            consumed: ns.len,
            line_after: line,
        }
    } else {
        LexStep {
            token: None,
            error: Some(LexError { kind: LexErrorKind::NumberTooLarge, line }),
            consumed: ns.len,
            line_after: line,
        }
    }
}

pub open spec fn lex_ident(s: Seq<char>, i: int, line: u64) -> LexStep {
    let n = ident_len(s, i);
    let text = s.subrange(i, i + n);
    let tt = match keyword_spec(text) {
        Some(k) => k,
        None => TokenType::IDENTIFIER,
    };
    simple_tok(s, i, line, tt, n)
}

/// One step of the lexer at position `i` of the source.
pub open spec fn lex_step(s: Seq<char>, i: int, line: u64) -> LexStep
    recommends
        0 <= i < s.len(),
{
    let c = s[i];
    if c == '(' {
        simple_tok(s, i, line, TokenType::LEFT_PAREN, 1)
    } else if c == ')' {
        simple_tok(s, i, line, TokenType::RIGHT_PAREN, 1)
    } else if c == '{' {
        simple_tok(s, i, line, TokenType::LEFT_BRACE, 1)
    } else if c == '}' {
        simple_tok(s, i, line, TokenType::RIGHT_BRACE, 1)
    } else if c == ',' {
        simple_tok(s, i, line, TokenType::COMMA, 1)
    } else if c == '.' {
        simple_tok(s, i, line, TokenType::DOT, 1)
    } else if c == '+' {
        simple_tok(s, i, line, TokenType::PLUS, 1)
    } else if c == '-' {
        simple_tok(s, i, line, TokenType::MINUS, 1)
    } else if c == ';' {
        simple_tok(s, i, line, TokenType::SEMICOLON, 1)
    } else if c == '*' {
        simple_tok(s, i, line, TokenType::STAR, 1)
    } else if c == '!' {
        two_char_step(s, i, line, TokenType::BANG, TokenType::BANG_EQUAL)
    } else if c == '=' {
        two_char_step(s, i, line, TokenType::EQUAL, TokenType::EQUAL_EQUAL)
    } else if c == '<' {
        two_char_step(s, i, line, TokenType::LESS, TokenType::LESS_EQUAL)
    } else if c == '>' {
        two_char_step(s, i, line, TokenType::GREATER, TokenType::GREATER_EQUAL)
    } else if c == '/' {
        if i + 1 < s.len() && s[i + 1] == '/' {
            skip_step(2 + comment_len(s, i + 2), line)
        } else {
            simple_tok(s, i, line, TokenType::SLASH, 1)
        }
    } else if c == ' ' || c == '\r' || c == '\t' {
        skip_step(1, line)
    } else if c == '\n' {
        skip_step(1, (line + 1) as u64)
    } else if c == '"' {
        lex_string(s, i, line)
    } else if is_digit_spec(c) {
        lex_number(s, i, line)
    } else if is_alpha_spec(c) {
        lex_ident(s, i, line)
    } else {
        LexStep {
            token: None,
            error: Some(LexError { kind: LexErrorKind::UnrecognizedChar(c), line }),
            consumed: 1,
            line_after: line,
        }
    }
}

/// A digit run stays within the source.
pub proof fn lemma_digits_len_bound(s: Seq<char>, i: int)
    requires
        0 <= i <= s.len(),
    ensures
        i + digits_len(s, i) <= s.len(),
    decreases s.len() - i,
{
    if i < s.len() && is_digit_spec(s[i]) {
        lemma_digits_len_bound(s, i + 1);
    }
}

/// An identifier run stays within the source.
pub proof fn lemma_ident_len_bound(s: Seq<char>, i: int)
    requires
        0 <= i <= s.len(),
    ensures
        i + ident_len(s, i) <= s.len(),
    decreases s.len() - i,
{
    if i < s.len() && is_alpha_numeric_spec(s[i]) {
        lemma_ident_len_bound(s, i + 1);
    }
}

/// A comment body stays within the source.
pub proof fn lemma_comment_len_bound(s: Seq<char>, i: int)
    requires
        0 <= i <= s.len(),
    ensures
        i + comment_len(s, i) <= s.len(),
    decreases s.len() - i,
{
    if i < s.len() && s[i] != '\n' {
        lemma_comment_len_bound(s, i + 1);
    }
}

/// A string body stays within the source; when it closes, the closing
/// quote stands right after it, and when it does not, it runs to the end.
pub proof fn lemma_str_scan_props(s: Seq<char>, i: int)
    requires
        0 <= i <= s.len(),
    ensures
        i + str_scan(s, i).body <= s.len(),
        str_scan(s, i).closed ==> i + str_scan(s, i).body < s.len() && s[i + str_scan(
            s,
            i,
        ).body] == '"',
        !str_scan(s, i).closed ==> i + str_scan(s, i).body == s.len(),
    decreases s.len() - i,
{
    if i < s.len() && s[i] != '"' {
        lemma_str_scan_props(s, i + 1);
    }
}

/// Every lexer step makes progress and stays within the source.
pub proof fn lemma_lex_step_consumes(s: Seq<char>, i: int, line: u64)
    requires
        0 <= i < s.len(),
    ensures
        1 <= lex_step(s, i, line).consumed <= s.len() - i,
{
    let c = s[i];
    if c == '/' && i + 1 < s.len() && s[i + 1] == '/' {
        lemma_comment_len_bound(s, i + 2);
    }
    if c == '"' {
        lemma_str_scan_props(s, i + 1);
    }
    if is_digit_spec(c) {
        assert(digits_len(s, i) >= 1);
        lemma_digits_len_bound(s, i);
        let n1 = digits_len(s, i);
        if i + n1 < s.len() && s[i + n1] == '.' && i + n1 + 1 < s.len() && is_digit_spec(
            s[i + n1 + 1],
        ) {
            lemma_digits_len_bound(s, i + n1 + 1);
        }
    }
    if !is_digit_spec(c) && is_alpha_spec(c) {
        assert(ident_len(s, i) >= 1);
        lemma_ident_len_bound(s, i);
    }
}

/// The token sequence and the diagnostics that scanning yields.
pub struct ScanOut {
    pub tokens: Seq<SToken>,
    pub errors: Seq<LexError>,
}

/// Scanning the rest of the source from position `i`: every remaining
/// token and diagnostic, ending with the end-of-input sentinel.
pub open spec fn scan_from(s: Seq<char>, i: int, line: u64) -> ScanOut
    decreases s.len() - i
        when i >= 0
{
    if !(0 <= i < s.len()) {
        ScanOut {
            tokens: seq![
                SToken {
                    token_type: TokenType::EoF,
                    lexeme: Seq::<char>::empty(),
                    literal: None,
                    line_number: line,
                },
            ],
            errors: Seq::<LexError>::empty(),
        }
    } else {
        let st = lex_step(s, i, line);
        let step: int = if st.consumed < 1 {
            1
        } else if st.consumed > s.len() - i {
            s.len() - i
        } else {
            st.consumed as int
        };
        let rest = scan_from(s, i + step, st.line_after);
        ScanOut {
            tokens: match st.token {
                Some(t) => seq![t] + rest.tokens,
                None => rest.tokens,
            },
            errors: match st.error {
                Some(e) => seq![e] + rest.errors,
                None => rest.errors,
            },
        }
    }
}

/// Scanning a whole source text, from its start at line 1.
pub open spec fn scan_spec(s: Seq<char>) -> ScanOut {
    scan_from(s, 0, 1)
}

/// The views of a sequence of tokens.
pub open spec fn toks_view(ts: Seq<Token>) -> Seq<SToken> {
    ts.map_values(|t: Token| t@)
}

/// A singleton or empty sequence from an optional element.
pub open spec fn opt_seq<A>(o: Option<A>) -> Seq<A> {
    match o {
        Some(a) => seq![a],
        None => Seq::<A>::empty(),
    }
}

proof fn lemma_toks_view_push(ts: Seq<Token>, t: Token)
    ensures
        toks_view(ts.push(t)) == toks_view(ts).push(t@),
{
    assert(toks_view(ts.push(t)) =~= toks_view(ts).push(t@));
}

/// In the string-scan decomposition, newlines never outnumber body characters.
proof fn lemma_str_scan_newlines(s: Seq<char>, i: int)
    requires
        0 <= i,
    ensures
        str_scan(s, i).newlines <= str_scan(s, i).body,
    decreases s.len() - i,
{
    if 0 <= i < s.len() && s[i] != '"' {
        lemma_str_scan_newlines(s, i + 1);
    }
}

pub proof fn lemma_pow10_mono(a: nat, b: nat)
    requires
        a <= b,
    ensures
        pow10(a) <= pow10(b),
    decreases b,
{
    if a < b {
        lemma_pow10_mono(a, (b - 1) as nat);
        assert(pow10(b) == 10 * pow10((b - 1) as nat));
    }
}

pub proof fn lemma_pow10_19()
    ensures
        pow10(19) == 10000000000000000000,
{
    reveal_with_fuel(pow10, 21);
}

/// The saturation cap for scanned digit values: one more than the largest
/// representable numerator.
pub open spec fn sat_cap() -> nat {
    0x8000000000000000
}

/// The digit value of a run, saturated at the cap.
pub open spec fn digits_val_sat(s: Seq<char>, i: int, n: nat) -> nat {
    if digits_val(s, i, n) > sat_cap() {
        sat_cap()
    } else {
        digits_val(s, i, n)
    }
}

/// The scanner: one pass over the source characters, producing tokens
/// and diagnostics.
pub struct Scanner {
    source: String,
    chars: Vec<char>,
    start: usize,
    current: usize,
    line: u64,
}

impl View for Scanner {
    type V = Seq<char>;

    closed spec fn view(&self) -> Seq<char> {
        self.chars@
    }
}

impl Scanner {
    /// The scanner's internal consistency: the character vector mirrors
    /// the source text, the cursor stays inside it, and the line count
    /// stays below the cursor (so it can never overflow).
    pub closed spec fn wf_inv(self) -> bool {
        &&& self.chars@ == self.source@
        &&& self.current <= self.chars@.len()
        &&& 1 <= self.line
        &&& self.line <= 1 + self.current
        &&& self.chars@.len() < u64::MAX
        &&& self.chars@.len() < usize::MAX
    }

    pub closed spec fn cur(self) -> int {
        self.current as int
    }

    pub closed spec fn start_pos(self) -> int {
        self.start as int
    }

    pub closed spec fn line_no(self) -> u64 {
        self.line
    }

    /// A scanner that has not consumed anything yet.
    pub open spec fn ready(self) -> bool {
        self.wf_inv() && self.cur() == 0 && self.line_no() == 1
    }

    /// Kept beside the free keyword-table function, as callers expect it.
    pub fn get_keywords_hashmap() {
    }

    /// A scanner over the given source, at its start.
    pub fn new(source: &str) -> (r: Self)
        requires
            source@.len() < u64::MAX,
            source@.len() < usize::MAX,
        ensures
            r@ == source@,
            r.ready(),
    {
        let n = source.unicode_len();
        let mut chars: Vec<char> = Vec::new();
        let mut i: usize = 0;
        while i < n
            invariant
                i <= n,
                n == source@.len(),
                chars@ == source@.subrange(0, i as int),
            decreases n - i,
        {
            chars.push(source.get_char(i));
            proof {
                assert(chars@ =~= source@.subrange(0, i + 1 as int));
            }
            i += 1;
        }
        proof {
            assert(chars@ =~= source@);
        }
        Scanner { source: source.to_owned(), chars, start: 0, current: 0, line: 1 }
    }

    fn is_at_end(&self) -> (r: bool)
        ensures
            r == (self.cur() >= self@.len()),
    {
        self.current >= self.chars.len()
    }

    /// The character under the cursor, or the null character at the end.
    fn peek(&self) -> (c: char)
        requires
            self.wf_inv(),
        ensures
            self.cur() < self@.len() ==> c == self@[self.cur()],
            self.cur() >= self@.len() ==> c == '\0',
    {
        if self.current >= self.chars.len() {
            '\0'
        } else {
            self.chars[self.current]
        }
    }

    /// The character after the cursor, or the null character at the end.
    fn peek_next(&self) -> (c: char)
        requires
            self.wf_inv(),
        ensures
            self.cur() + 1 < self@.len() ==> c == self@[self.cur() + 1],
            self.cur() + 1 >= self@.len() ==> c == '\0',
    {
        if self.current + 1 >= self.chars.len() {
            '\0'
        } else {
            self.chars[self.current + 1]
        }
    }

    /// Consumes and returns the character under the cursor.
    fn advance(&mut self) -> (c: char)
        requires
            old(self).wf_inv(),
            old(self).cur() < old(self)@.len(),
        ensures
            final(self).wf_inv(),
            c == old(self)@[old(self).cur()],
            final(self)@ == old(self)@,
            final(self).cur() == old(self).cur() + 1,
            final(self).line_no() == old(self).line_no(),
            final(self).start_pos() == old(self).start_pos(),
    {
        let c = self.chars[self.current];
        self.current += 1;
        c
    }

    /// Consumes the character under the cursor exactly when it is `ch`.
    fn char_match(&mut self, ch: char) -> (r: bool)
        requires
            old(self).wf_inv(),
        ensures
            final(self).wf_inv(),
            final(self)@ == old(self)@,
            final(self).line_no() == old(self).line_no(),
            final(self).start_pos() == old(self).start_pos(),
            r == (old(self).cur() < old(self)@.len() && old(self)@[old(self).cur()] == ch),
            r ==> final(self).cur() == old(self).cur() + 1,
            !r ==> final(self).cur() == old(self).cur(),
    {
        if self.current >= self.chars.len() {
            false
        } else if self.chars[self.current] != ch {
            false
        } else {
            self.current += 1;
            true
        }
    }

    /// Appends a token without a literal, spanning `start .. current`.
    fn add_token(&self, tokens: &mut Vec<Token>, token_type: TokenType)
        requires
            self.wf_inv(),
            self.start_pos() <= self.cur(),
        ensures
            toks_view(final(tokens)@) == toks_view(old(tokens)@) + seq![
                SToken {
                    token_type,
                    lexeme: self@.subrange(self.start_pos(), self.cur()),
                    literal: None,
                    line_number: self.line_no(),
                },
            ],
    {
        self.add_token_lit(tokens, token_type, None)
    }

    /// Appends a token with the given literal, spanning `start .. current`.
    fn add_token_lit(
        &self,
        tokens: &mut Vec<Token>,
        token_type: TokenType,
        literal: Option<LiteralValue>,
    )
        requires
            self.wf_inv(),
            self.start_pos() <= self.cur(),
        ensures
            toks_view(final(tokens)@) == toks_view(old(tokens)@) + seq![
                SToken {
                    token_type,
                    lexeme: self@.subrange(self.start_pos(), self.cur()),
                    literal: match literal {
                        Some(l) => Some(l@),
                        None => None,
                    },
                    line_number: self.line_no(),
                },
            ],
    {
        let text = self.source.as_str().substring_char(self.start, self.current).to_owned();
        let t = Token { token_type, lexeme: text, literal, line_number: self.line };
        proof {
            lemma_toks_view_push(tokens@, t);
            assert(toks_view(tokens@).push(t@) =~= toks_view(tokens@) + seq![t@]);
        }
        tokens.push(t);
    }

    /// Whether the cursor stands on an identifier character.
    fn peek_is_alnum(&self) -> (r: bool)
        requires
            self.wf_inv(),
        ensures
            r == (self.cur() < self@.len() && is_alpha_numeric_spec(self@[self.cur()])),
    {
        if self.current >= self.chars.len() {
            false
        } else {
            is_alpha_numeric(self.chars[self.current])
        }
    }

    /// Whether the cursor stands on a decimal digit.
    fn peek_is_digit(&self) -> (r: bool)
        requires
            self.wf_inv(),
        ensures
            r == (self.cur() < self@.len() && is_digit_spec(self@[self.cur()])),
    {
        if self.current >= self.chars.len() {
            false
        } else {
            is_digit(self.chars[self.current])
        }
    }

    /// Whether the cursor still stands inside a string literal's body.
    fn in_string_body(&self) -> (r: bool)
        requires
            self.wf_inv(),
        ensures
            r == (self.cur() < self@.len() && self@[self.cur()] != '"'),
    {
        if self.current >= self.chars.len() {
            false
        } else {
            self.chars[self.current] != '"'
        }
    }

    /// Whether the cursor still stands inside a line comment's body.
    fn in_comment_body(&self) -> (r: bool)
        requires
            self.wf_inv(),
        ensures
            r == (self.cur() < self@.len() && self@[self.cur()] != '\n'),
    {
        if self.current >= self.chars.len() {
            false
        } else {
            self.chars[self.current] != '\n'
        }
    }

    /// Scans an identifier or keyword whose first character was consumed.
    fn scan_identifier(&mut self, tokens: &mut Vec<Token>)
        requires
            old(self).wf_inv(),
            1 <= old(self).cur() <= old(self)@.len(),
            old(self).start_pos() == old(self).cur() - 1,
            is_alpha_spec(old(self)@[old(self).start_pos()]),
        ensures
            final(self).wf_inv(),
            final(self)@ == old(self)@,
            final(self).line_no() == old(self).line_no(),
            ({
                let st = lex_ident(old(self)@, old(self).start_pos(), old(self).line_no());
                &&& final(self).cur() == old(self).start_pos() + st.consumed
                &&& toks_view(final(tokens)@) == toks_view(old(tokens)@) + opt_seq(st.token)
            }),
    {
        let ghost s = self@;
        let ghost i0 = self.start_pos();
        while self.peek_is_alnum()
            invariant
                self.wf_inv(),
                self@ == s,
                self.line_no() == old(self).line_no(),
                self.start_pos() == i0,
                i0 + 1 <= self.cur() <= s.len(),
                ident_len(s, i0) == (self.cur() - i0) + ident_len(s, self.cur()),
            decreases s.len() - self.cur(),
        {
            self.advance();
        }
        let text = self.source.as_str().substring_char(self.start, self.current).to_owned();
        let tt = match keyword_kind(&text) {
            Some(k) => k,
            None => TokenType::IDENTIFIER,
        };
        self.add_token(tokens, tt);
        proof {
            let st = lex_ident(s, i0, old(self).line_no());
            assert(toks_view(final(tokens)@) =~= toks_view(old(tokens)@) + opt_seq(st.token));
        }
    }

    /// Scans a string literal whose opening quote was consumed.
    fn scan_string(&mut self, tokens: &mut Vec<Token>, errors: &mut Vec<LexError>)
        requires
            old(self).wf_inv(),
            1 <= old(self).cur() <= old(self)@.len(),
            old(self).start_pos() == old(self).cur() - 1,
            old(self).line_no() <= 1 + old(self).start_pos(),
            old(self)@[old(self).start_pos()] == '"',
        ensures
            final(self).wf_inv(),
            final(self)@ == old(self)@,
            ({
                let st = lex_string(old(self)@, old(self).start_pos(), old(self).line_no());
                &&& final(self).cur() == old(self).start_pos() + st.consumed
                &&& final(self).line_no() == st.line_after
                &&& toks_view(final(tokens)@) == toks_view(old(tokens)@) + opt_seq(st.token)
                &&& final(errors)@ == old(errors)@ + opt_seq(st.error)
            }),
    {
        let ghost s = self@;
        let ghost i0 = self.start_pos();
        let ghost l0 = self.line_no();
        while self.in_string_body()
            invariant
                self.wf_inv(),
                self@ == s,
                self.start_pos() == i0,
                i0 + 1 <= self.cur() <= s.len(),
                l0 <= self.line_no(),
                1 <= l0 <= 1 + i0,
                self.line_no() - l0 <= self.cur() - (i0 + 1),
                str_scan(s, i0 + 1).body == (self.cur() - (i0 + 1)) + str_scan(s, self.cur()).body,
                str_scan(s, i0 + 1).newlines == (self.line_no() - l0) + str_scan(
                    s,
                    self.cur(),
                ).newlines,
                str_scan(s, i0 + 1).closed == str_scan(s, self.cur()).closed,
            decreases s.len() - self.cur(),
        {
            let c = self.advance();
            if c == '\n' {
                self.line = self.line + 1;
            }
        }
        if self.is_at_end() {
            let e = LexError { kind: LexErrorKind::UnterminatedString, line: self.line };
            errors.push(e);
            proof {
                let st = lex_string(s, i0, l0);
                assert(final(errors)@ =~= old(errors)@ + opt_seq(st.error));
                assert(toks_view(final(tokens)@) =~= toks_view(old(tokens)@) + opt_seq(st.token));
            }
        } else {
            self.advance();
            let value = self.source.as_str().substring_char(
                self.start + 1,
                self.current - 1,
            ).to_owned();
            self.add_token_lit(tokens, TokenType::STRING, Some(LiteralValue::StringValue(value)));
            proof {
                let st = lex_string(s, i0, l0);
                assert(toks_view(final(tokens)@) =~= toks_view(old(tokens)@) + opt_seq(st.token));
                assert(final(errors)@ =~= old(errors)@ + opt_seq(st.error));
            }
        }
    }

    /// The value of the digit run `from .. to`, saturated at the cap.
    fn digits_value_sat(&self, from: usize, to: usize) -> (v: u128)
        requires
            self.wf_inv(),
            from <= to <= self@.len(),
            forall|k: int| from <= k < to ==> is_digit_spec(self@[k]),
        ensures
            v as nat == digits_val_sat(self@, from as int, (to - from) as nat),
    {
        let mut acc: u128 = 0;
        let mut k = from;
        while k < to
            invariant
                self.wf_inv(),
                from <= k <= to <= self@.len(),
                forall|j: int| from <= j < to ==> is_digit_spec(self@[j]),
                acc as nat == digits_val_sat(self@, from as int, (k - from) as nat),
            decreases to - k,
        {
            let c = self.chars[k];
            let d = (c as u32 - '0' as u32) as u128;
            let raw = acc * 10 + d;
            let next = if raw > 0x8000000000000000u128 {
                0x8000000000000000u128
            } else {
                raw
            };
            proof {
                let dv = digits_val(self@, from as int, (k - from) as nat);
                assert(digits_val(self@, from as int, (k + 1 - from) as nat) == dv * 10 + digit_of(
                    self@[k as int],
                ));
            }
            acc = next;
            k += 1;
        }
        acc
    }

    /// Ten to the given small power.
    fn pow10_u64(n: u64) -> (r: u64)
        requires
            n <= 19,
        ensures
            r as nat == pow10(n as nat),
    {
        let mut r: u64 = 1;
        let mut k: u64 = 0;
        while k < n
            invariant
                k <= n <= 19,
                r as nat == pow10(k as nat),
            decreases n - k,
        {
            proof {
                lemma_pow10_mono((k + 1) as nat, 19);
                lemma_pow10_19();
                assert(pow10((k + 1) as nat) == 10 * pow10(k as nat));
            }
            r = r * 10;
            k += 1;
        }
        r
    }

    /// Scans a number literal whose first digit was consumed.
    fn scan_number(&mut self, tokens: &mut Vec<Token>, errors: &mut Vec<LexError>)
        requires
            old(self).wf_inv(),
            1 <= old(self).cur() <= old(self)@.len(),
            old(self).start_pos() == old(self).cur() - 1,
            is_digit_spec(old(self)@[old(self).start_pos()]),
        ensures
            final(self).wf_inv(),
            final(self)@ == old(self)@,
            final(self).line_no() == old(self).line_no(),
            ({
                let st = lex_number(old(self)@, old(self).start_pos(), old(self).line_no());
                &&& final(self).cur() == old(self).start_pos() + st.consumed
                &&& toks_view(final(tokens)@) == toks_view(old(tokens)@) + opt_seq(st.token)
                &&& final(errors)@ == old(errors)@ + opt_seq(st.error)
            }),
    {
        let ghost s = self@;
        let ghost i0 = self.start_pos();
        let ghost l0 = self.line_no();
        while self.peek_is_digit()
            invariant
                self.wf_inv(),
                self@ == s,
                self.line_no() == l0,
                self.start_pos() == i0,
                i0 + 1 <= self.cur() <= s.len(),
                digits_len(s, i0) == (self.cur() - i0) + digits_len(s, self.cur()),
                forall|j: int| i0 <= j < self.cur() ==> is_digit_spec(s[j]),
            decreases s.len() - self.cur(),
        {
            self.advance();
        }
        let p1 = self.current;
        proof {
            assert(digits_len(s, i0) == p1 - i0);
        }
        let mut has_frac = false;
        if self.peek() == '.' && is_digit(self.peek_next()) {
            has_frac = true;
            self.advance();
            while self.peek_is_digit()
                invariant
                    self.wf_inv(),
                    self@ == s,
                    self.line_no() == l0,
                    self.start_pos() == i0,
                    p1 + 1 <= self.cur() <= s.len(),
                    digits_len(s, p1 + 1) == (self.cur() - (p1 + 1)) + digits_len(s, self.cur()),
                    forall|j: int| p1 + 1 <= j < self.cur() ==> is_digit_spec(s[j]),
                decreases s.len() - self.cur(),
            {
                self.advance();
            }
        }
        let ghost ns = num_scan(s, i0);
        proof {
            if has_frac {
                assert(ns.len == (p1 - i0) + 1 + digits_len(s, p1 + 1));
                assert(self.cur() == i0 + ns.len);
            } else {
                assert(ns.len == p1 - i0);
                assert(ns.frac_len == 0 && ns.frac == 0);
            }
        }
        let w = self.digits_value_sat(self.start, p1);
        let flen_usize: usize = if has_frac {
            self.current - (p1 + 1)
        } else {
            0
        };
        let f: u128 = if has_frac {
            self.digits_value_sat(p1 + 1, self.current)
        } else {
            0
        };
        if flen_usize > 19 {
            let e = LexError { kind: LexErrorKind::NumberTooLarge, line: self.line };
            errors.push(e);
            proof {
                let st = lex_number(s, i0, l0);
                assert(!num_scan_fits(ns));
                assert(final(errors)@ =~= old(errors)@ + opt_seq(st.error));
                assert(toks_view(final(tokens)@) =~= toks_view(old(tokens)@) + opt_seq(st.token));
            }
            return ;
        }
        let pw = Self::pow10_u64(flen_usize as u64);
        proof {
            lemma_pow10_mono(ns.frac_len, 19);
            lemma_pow10_19();
            lemma_sat_product_fits(w as nat, pw as nat);
        }
        let numer: u128 = w * (pw as u128) + f;
        proof {
            lemma_pow10_pos(ns.frac_len);
            lemma_num_fits_equiv(ns.whole, ns.frac, pow10(ns.frac_len));
        }
        if numer > (i64::MAX as u128) {
            let e = LexError { kind: LexErrorKind::NumberTooLarge, line: self.line };
            errors.push(e);
            proof {
                let st = lex_number(s, i0, l0);
                assert(!num_scan_fits(ns));
                assert(final(errors)@ =~= old(errors)@ + opt_seq(st.error));
                assert(toks_view(final(tokens)@) =~= toks_view(old(tokens)@) + opt_seq(st.token));
            }
            return ;
        }
        proof {
            crate::number::lemma_gcd_pos(numer as nat, pw as nat);
            crate::number::lemma_gcd_le(numer as nat, pw as nat);
            vstd::arithmetic::div_mod::lemma_div_nonincreasing(
                numer as int,
                crate::number::gcd_spec(numer as nat, pw as nat) as int,
            );
            vstd::arithmetic::div_mod::lemma_div_nonincreasing(
                pw as int,
                crate::number::gcd_spec(numer as nat, pw as nat) as int,
            );
        }
        match crate::number::reduce_parts(false, numer, pw as u128) {
            Ok(v) => {
                self.add_token_lit(tokens, TokenType::NUMBER, Some(LiteralValue::NumberValue(v)));
                proof {
                    let st = lex_number(s, i0, l0);
                    assert(num_scan_fits(ns));
                    assert(v == num_scan_value(ns));
                    assert(toks_view(final(tokens)@) =~= toks_view(old(tokens)@) + opt_seq(
                        st.token,
                    ));
                    assert(final(errors)@ =~= old(errors)@ + opt_seq(st.error));
                }
            },
            Err(_) => {
                proof {
                    assert(false);
                }
            },
        }
    }
}


impl Scanner {
    /// Scans one token, comment, or whitespace run at the cursor.
    fn scan_token(&mut self, tokens: &mut Vec<Token>, errors: &mut Vec<LexError>)
        requires
            old(self).wf_inv(),
            old(self).start_pos() == old(self).cur(),
            old(self).cur() < old(self)@.len(),
        ensures
            final(self).wf_inv(),
            final(self)@ == old(self)@,
            ({
                let st = lex_step(old(self)@, old(self).cur(), old(self).line_no());
                &&& final(self).cur() == old(self).cur() + st.consumed
                &&& final(self).line_no() == st.line_after
                &&& toks_view(final(tokens)@) == toks_view(old(tokens)@) + opt_seq(st.token)
                &&& final(errors)@ == old(errors)@ + opt_seq(st.error)
            }),
    {
        let ghost s = self@;
        let ghost i0 = self.cur();
        let ghost l0 = self.line_no();
        let ghost st = lex_step(s, i0, l0);
        let c = self.advance();
        if c == '(' {
            self.add_token(tokens, TokenType::LEFT_PAREN);
        } else if c == ')' {
            self.add_token(tokens, TokenType::RIGHT_PAREN);
        } else if c == '{' {
            self.add_token(tokens, TokenType::LEFT_BRACE);
        } else if c == '}' {
            self.add_token(tokens, TokenType::RIGHT_BRACE);
        } else if c == ',' {
            self.add_token(tokens, TokenType::COMMA);
        } else if c == '.' {
            self.add_token(tokens, TokenType::DOT);
        } else if c == '+' {
            self.add_token(tokens, TokenType::PLUS);
        } else if c == '-' {
            self.add_token(tokens, TokenType::MINUS);
        } else if c == ';' {
            self.add_token(tokens, TokenType::SEMICOLON);
        } else if c == '*' {
            self.add_token(tokens, TokenType::STAR);
        } else if c == '!' {
            let tt = if self.char_match('=') {
                TokenType::BANG_EQUAL
            } else {
                TokenType::BANG
            };
            self.add_token(tokens, tt);
        } else if c == '=' {
            let tt = if self.char_match('=') {
                TokenType::EQUAL_EQUAL
            } else {
                TokenType::EQUAL
            };
            self.add_token(tokens, tt);
        } else if c == '<' {
            let tt = if self.char_match('=') {
                TokenType::LESS_EQUAL
            } else {
                TokenType::LESS
            };
            self.add_token(tokens, tt);
        } else if c == '>' {
            let tt = if self.char_match('=') {
                TokenType::GREATER_EQUAL
            } else {
                TokenType::GREATER
            };
            self.add_token(tokens, tt);
        } else if c == '/' {
            if self.char_match('/') {
                while self.in_comment_body()
                    invariant
                        self.wf_inv(),
                        self@ == s,
                        self.line_no() == l0,
                        i0 + 2 <= self.cur() <= s.len(),
                        comment_len(s, i0 + 2) == (self.cur() - (i0 + 2)) + comment_len(
                            s,
                            self.cur(),
                        ),
                    decreases s.len() - self.cur(),
                {
                    self.advance();
                }
            } else {
                self.add_token(tokens, TokenType::SLASH);
            }
        } else if c == ' ' || c == '\r' || c == '\t' {
        } else if c == '\n' {
            self.line = self.line + 1;
        } else if c == '"' {
            self.scan_string(tokens, errors);
        } else if is_digit(c) {
            self.scan_number(tokens, errors);
        } else if is_alpha(c) {
            self.scan_identifier(tokens);
        } else {
            let e = LexError { kind: LexErrorKind::UnrecognizedChar(c), line: self.line };
            errors.push(e);
        }
        proof {
            assert(toks_view(final(tokens)@) =~= toks_view(old(tokens)@) + opt_seq(st.token));
            assert(final(errors)@ =~= old(errors)@ + opt_seq(st.error));
        }
    }

    /// Scans the whole source: every token, ending with the end-of-input
    /// sentinel, and every diagnostic, in source order.
    pub fn scan(&mut self) -> (r: (Vec<Token>, Vec<LexError>))
        requires
            old(self).ready(),
        ensures
            toks_view(r.0@) == scan_spec(old(self)@).tokens,
            r.1@ == scan_spec(old(self)@).errors,
    {
        let ghost s = self@;
        let mut tokens: Vec<Token> = Vec::new();
        let mut errors: Vec<LexError> = Vec::new();
        while self.current < self.chars.len()
            invariant
                self.wf_inv(),
                self@ == s,
                scan_spec(s).tokens == toks_view(tokens@) + scan_from(
                    s,
                    self.cur(),
                    self.line_no(),
                ).tokens,
                scan_spec(s).errors == errors@ + scan_from(s, self.cur(), self.line_no()).errors,
            decreases s.len() - self.cur(),
        {
            proof {
                lemma_lex_step_consumes(s, self.cur(), self.line_no());
            }
            let ghost pre_toks = tokens@;
            let ghost pre_errs = errors@;
            let ghost pre_cur = self.cur();
            let ghost pre_line = self.line_no();
            self.start = self.current;
            self.scan_token(&mut tokens, &mut errors);
            proof {
                let st = lex_step(s, pre_cur, pre_line);
                assert(scan_from(s, pre_cur, pre_line).tokens =~= opt_seq(st.token) + scan_from(
                    s,
                    self.cur(),
                    self.line_no(),
                ).tokens);
                assert(scan_from(s, pre_cur, pre_line).errors =~= opt_seq(st.error) + scan_from(
                    s,
                    self.cur(),
                    self.line_no(),
                ).errors);
                assert(scan_spec(s).tokens =~= toks_view(tokens@) + scan_from(
                    s,
                    self.cur(),
                    self.line_no(),
                ).tokens);
                assert(scan_spec(s).errors =~= errors@ + scan_from(
                    s,
                    self.cur(),
                    self.line_no(),
                ).errors);
            }
        }
        let t = Token {
            token_type: TokenType::EoF,
            lexeme: String::new(),
            literal: None,
            line_number: self.line,
        };
        proof {
            lemma_toks_view_push(tokens@, t);
        }
        tokens.push(t);
        proof {
            assert(toks_view(tokens@) =~= scan_spec(s).tokens);
            assert(errors@ =~= scan_spec(s).errors);
        }
        (tokens, errors)
    }

    /// Scans the whole source: with no diagnostics the tokens; otherwise
    /// every diagnostic that the pass collected.
    pub fn scan_tokens(&mut self) -> (r: Result<Vec<Token>, Vec<LexError>>)
        requires
            old(self).ready(),
        ensures
            ({
                let out = scan_spec(old(self)@);
                match r {
                    Ok(ts) => out.errors.len() == 0 && toks_view(ts@) == out.tokens,
                    Err(es) => es@.len() > 0 && es@ == out.errors,
                }
            }),
    {
        let (tokens, errors) = self.scan();
        if errors.len() == 0 {
            Ok(tokens)
        } else {
            Err(errors)
        }
    }
}

/// The name of a token kind, as text.
pub open spec fn token_type_name(t: TokenType) -> Seq<char> {
    match t {
        TokenType::LEFT_PAREN => "LEFT_PAREN"@,
        TokenType::RIGHT_PAREN => "RIGHT_PAREN"@,
        TokenType::LEFT_BRACE => "LEFT_BRACE"@,
        TokenType::RIGHT_BRACE => "RIGHT_BRACE"@,
        TokenType::COMMA => "COMMA"@,
        TokenType::DOT => "DOT"@,
        TokenType::MINUS => "MINUS"@,
        TokenType::PLUS => "PLUS"@,
        TokenType::SEMICOLON => "SEMICOLON"@,
        TokenType::SLASH => "SLASH"@,
        TokenType::STAR => "STAR"@,
        TokenType::BANG => "BANG"@,
        TokenType::BANG_EQUAL => "BANG_EQUAL"@,
        TokenType::EQUAL => "EQUAL"@,
        TokenType::EQUAL_EQUAL => "EQUAL_EQUAL"@,
        TokenType::GREATER => "GREATER"@,
        TokenType::GREATER_EQUAL => "GREATER_EQUAL"@,
        TokenType::LESS => "LESS"@,
        TokenType::LESS_EQUAL => "LESS_EQUAL"@,
        TokenType::IDENTIFIER => "IDENTIFIER"@,
        TokenType::STRING => "STRING"@,
        TokenType::NUMBER => "NUMBER"@,
        TokenType::AND => "AND"@,
        TokenType::CLASS => "CLASS"@,
        TokenType::ELSE => "ELSE"@,
        TokenType::FALSE => "FALSE"@,
        TokenType::FUN => "FUN"@,
        TokenType::FOR => "FOR"@,
        TokenType::IF => "IF"@,
        TokenType::NIL => "NIL"@,
        TokenType::OR => "OR"@,
        TokenType::PRINT => "PRINT"@,
        TokenType::RETURN => "RETURN"@,
        TokenType::SUPER => "SUPER"@,
        TokenType::THIS => "THIS"@,
        TokenType::TRUE => "TRUE"@,
        TokenType::VAR => "VAR"@,
        TokenType::WHILE => "WHILE"@,
        TokenType::EoF => "EoF"@,
    }
}

impl TokenType {
    /// The kind's name, as text.
    pub fn to_string(&self) -> (r: String)
        ensures
            r@ == token_type_name(*self),
    {
        match self {
            TokenType::LEFT_PAREN => String::from_str("LEFT_PAREN"),
            TokenType::RIGHT_PAREN => String::from_str("RIGHT_PAREN"),
            TokenType::LEFT_BRACE => String::from_str("LEFT_BRACE"),
            TokenType::RIGHT_BRACE => String::from_str("RIGHT_BRACE"),
            TokenType::COMMA => String::from_str("COMMA"),
            TokenType::DOT => String::from_str("DOT"),
            TokenType::MINUS => String::from_str("MINUS"),
            TokenType::PLUS => String::from_str("PLUS"),
            TokenType::SEMICOLON => String::from_str("SEMICOLON"),
            TokenType::SLASH => String::from_str("SLASH"),
            TokenType::STAR => String::from_str("STAR"),
            TokenType::BANG => String::from_str("BANG"),
            TokenType::BANG_EQUAL => String::from_str("BANG_EQUAL"),
            TokenType::EQUAL => String::from_str("EQUAL"),
            TokenType::EQUAL_EQUAL => String::from_str("EQUAL_EQUAL"),
            TokenType::GREATER => String::from_str("GREATER"),
            TokenType::GREATER_EQUAL => String::from_str("GREATER_EQUAL"),
            TokenType::LESS => String::from_str("LESS"),
            TokenType::LESS_EQUAL => String::from_str("LESS_EQUAL"),
            TokenType::IDENTIFIER => String::from_str("IDENTIFIER"),
            TokenType::STRING => String::from_str("STRING"),
            TokenType::NUMBER => String::from_str("NUMBER"),
            TokenType::AND => String::from_str("AND"),
            TokenType::CLASS => String::from_str("CLASS"),
            TokenType::ELSE => String::from_str("ELSE"),
            TokenType::FALSE => String::from_str("FALSE"),
            TokenType::FUN => String::from_str("FUN"),
            TokenType::FOR => String::from_str("FOR"),
            TokenType::IF => String::from_str("IF"),
            TokenType::NIL => String::from_str("NIL"),
            TokenType::OR => String::from_str("OR"),
            TokenType::PRINT => String::from_str("PRINT"),
            TokenType::RETURN => String::from_str("RETURN"),
            TokenType::SUPER => String::from_str("SUPER"),
            TokenType::THIS => String::from_str("THIS"),
            TokenType::TRUE => String::from_str("TRUE"),
            TokenType::VAR => String::from_str("VAR"),
            TokenType::WHILE => String::from_str("WHILE"),
            TokenType::EoF => String::from_str("EoF"),
        }
    }
}

/// The text of a literal payload: the canonical number text, the raw
/// characters of a string or identifier, or `None` for no payload.
pub open spec fn lit_text(l: Option<SLit>) -> Seq<char> {
    match l {
        None => "None"@,
        Some(SLit::SNum(n)) => crate::number::num_str(n.num as int, n.den as int),
        Some(SLit::SStr(x)) => x,
        Some(SLit::SIdent(x)) => x,
    }
}

impl Token {
    /// A number literal the token may carry is well-formed.
    pub open spec fn wf(self) -> bool {
        match self.literal {
            Some(LiteralValue::NumberValue(n)) => n.wf(),
            _ => true,
        }
    }

    /// A token built from its parts.
    pub fn new(
        token_type: TokenType,
        lexeme: String,
        literal: Option<LiteralValue>,
        line_number: u64,
    ) -> (r: Self)
        ensures
            r.token_type == token_type,
            r.lexeme == lexeme,
            r.literal == literal,
            r.line_number == line_number,
    {
        Self { token_type, lexeme, literal, line_number }
    }

    /// The token as text: its kind, its lexeme, and its literal payload.
    pub fn to_string(&self) -> (r: String)
        requires
            self.wf(),
        ensures
            r@ == token_type_name(self.token_type) + " "@ + self.lexeme@ + " "@ + lit_text(
                self@.literal,
            ),
    {
        let mut out = self.token_type.to_string();
        out.append(" ");
        out.append(self.lexeme.as_str());
        out.append(" ");
        match &self.literal {
            None => {
                out.append("None");
            },
            Some(LiteralValue::NumberValue(n)) => {
                let t = n.to_text();
                out.append(t.as_str());
            },
            Some(LiteralValue::StringValue(x)) => {
                out.append(x.as_str());
            },
            Some(LiteralValue::IdentifierVal(x)) => {
                out.append(x.as_str());
            },
        }
        out
    }
}

/// An exact copy of a token literal.
pub fn clone_literal(l: &LiteralValue) -> (r: LiteralValue)
    ensures
        r == *l,
{
    match l {
        LiteralValue::NumberValue(n) => LiteralValue::NumberValue(*n),
        LiteralValue::StringValue(s) => LiteralValue::StringValue(s.clone()),
        LiteralValue::IdentifierVal(s) => LiteralValue::IdentifierVal(s.clone()),
    }
}

/// An exact copy of a token.
pub fn clone_token(t: &Token) -> (r: Token)
    ensures
        r == *t,
{
    Token {
        token_type: t.token_type,
        lexeme: t.lexeme.clone(),
        literal: match &t.literal {
            Some(l) => Some(clone_literal(l)),
            None => None,
        },
        line_number: t.line_number,
    }
}

/// How many digits the whole and fraction runs may have before the
/// saturated test and the exact test diverge: they never do, because both
/// sides agree above the cap.
pub proof fn lemma_num_fits_equiv(w: nat, f: nat, p: nat)
    requires
        p >= 1,
    ensures
        ((if w > sat_cap() {
            sat_cap()
        } else {
            w
        }) * p + (if f > sat_cap() {
            sat_cap()
        } else {
            f
        }) > i64::MAX) <==> (w * p + f > i64::MAX),
        (if w > sat_cap() {
            sat_cap()
        } else {
            w
        }) * p + (if f > sat_cap() {
            sat_cap()
        } else {
            f
        }) <= i64::MAX ==> (if w > sat_cap() {
            sat_cap()
        } else {
            w
        }) == w && (if f > sat_cap() {
            sat_cap()
        } else {
            f
        }) == f,
{
    let ws: nat = if w > sat_cap() {
        sat_cap()
    } else {
        w
    };
    let fs: nat = if f > sat_cap() {
        sat_cap()
    } else {
        f
    };
    lemma_mul_lower_one(ws, p);
    lemma_mul_lower_one(w, p);
    if w > sat_cap() {
        lemma_mul_inequality_nat(sat_cap(), w, p);
    } else if f > sat_cap() {
        lemma_mul_nonneg_nat(ws, p);
        lemma_mul_nonneg_nat(w, p);
    }
}

pub proof fn lemma_pow10_pos(n: nat)
    ensures
        pow10(n) >= 1,
    decreases n,
{
    if n > 0 {
        lemma_pow10_pos((n - 1) as nat);
    }
}

proof fn lemma_mul_inequality_nat(x: nat, y: nat, z: nat)
    requires
        x <= y,
    ensures
        x * z <= y * z,
{
    vstd::arithmetic::mul::lemma_mul_inequality(x as int, y as int, z as int);
}

proof fn lemma_mul_lower_one(x: nat, p: nat)
    requires
        p >= 1,
    ensures
        x * p >= x,
{
    vstd::arithmetic::mul::lemma_mul_inequality(1, p as int, x as int);
    vstd::arithmetic::mul::lemma_mul_is_commutative(x as int, p as int);
    vstd::arithmetic::mul::lemma_mul_basics(x as int);
}

proof fn lemma_mul_nonneg_nat(x: nat, p: nat)
    ensures
        x * p >= 0,
{
}

/// The saturated whole part times a small power of ten fits in `u128`.
proof fn lemma_sat_product_fits(w: nat, p: nat)
    requires
        w <= sat_cap(),
        p <= pow10(19),
    ensures
        w * p <= sat_cap() * pow10(19),
        sat_cap() * pow10(19) + sat_cap() < u128::MAX,
{
    lemma_pow10_19();
    vstd::arithmetic::mul::lemma_mul_upper_bound(
        w as int,
        sat_cap() as int,
        p as int,
        pow10(19) as int,
    );
}

} // verus!
