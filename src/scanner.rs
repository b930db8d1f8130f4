//! The lexer: source text to tokens, in one forward pass over its characters.
use vstd::prelude::*;

verus! {

/// The kind of a token.
#[derive(Clone, Copy, Debug, PartialEq, Eq, Structural)]
pub enum TokenType {
    // Single-character tokens.
    LeftParen,
    RightParen,
    LeftBrace,
    RightBrace,
    Comma,
    Dot,
    Minus,
    Plus,
    Semicolon,
    Slash,
    Star,
    // One or two character tokens.
    Bang,
    BangEqual,
    Equal,
    EqualEqual,
    Greater,
    GreaterEqual,
    Less,
    LessEqual,
    // Literals.
    Identifier,
    StringLiteral,
    Number,
    // Keywords.
    And,
    Class,
    Else,
    False,
    Fun,
    For,
    If,
    Nil,
    Or,
    Print,
    Return,
    Super,
    This,
    True,
    Var,
    While,
    // End of input, and any character the language does not know.
    Eof,
    Unknown,
}

/// An ASCII decimal digit.
pub open spec fn spec_is_digit(c: char) -> bool {
    '0' <= c <= '9'
}

/// An ASCII letter or an underscore.
pub open spec fn spec_is_alpha(c: char) -> bool {
    ('a' <= c <= 'z') || ('A' <= c <= 'Z') || c == '_'
}

/// A digit, an ASCII letter or an underscore.
pub open spec fn spec_is_alphanumeric(c: char) -> bool {
    spec_is_digit(c) || spec_is_alpha(c)
}

/// An ASCII decimal digit.
pub fn is_digit(c: char) -> (r: bool)
    ensures
        r == spec_is_digit(c),
{
    '0' <= c && c <= '9'
}

/// An ASCII letter or an underscore: a character that may start an identifier.
pub fn is_alpha(c: char) -> (r: bool)
    ensures
        r == spec_is_alpha(c),
{
    ('a' <= c && c <= 'z') || ('A' <= c && c <= 'Z') || c == '_'
}

/// A character that may continue an identifier.
pub fn is_alphanumeric(c: char) -> (r: bool)
    ensures
        r == spec_is_alphanumeric(c),
{
    is_digit(c) || is_alpha(c)
}


/// The keyword spelled by `w`, or `Identifier` when `w` is no keyword.
pub open spec fn keyword_type(w: Seq<char>) -> TokenType {
    if w == "and"@ {
        TokenType::And
    } else if w == "class"@ {
        TokenType::Class
    } else if w == "else"@ {
        TokenType::Else
    } else if w == "false"@ {
        TokenType::False
    } else if w == "fun"@ {
        TokenType::Fun
    } else if w == "for"@ {
        TokenType::For
    } else if w == "if"@ {
        TokenType::If
    } else if w == "nil"@ {
        TokenType::Nil
    } else if w == "or"@ {
        TokenType::Or
    } else if w == "print"@ {
        TokenType::Print
    } else if w == "return"@ {
        TokenType::Return
    } else if w == "super"@ {
        TokenType::Super
    } else if w == "this"@ {
        TokenType::This
    } else if w == "true"@ {
        TokenType::True
    } else if w == "var"@ {
        TokenType::Var
    } else if w == "while"@ {
        TokenType::While
    } else {
        TokenType::Identifier
    }
}

/// Whether two strings hold the same characters.
fn same_text(a: &str, b: &str) -> (r: bool)
    ensures
        r == (a@ == b@),
{
    let n = a.unicode_len();
    if n != b.unicode_len() {
        return false;
    }
    let mut i: usize = 0;
    while i < n
        invariant
            n == a@.len(),
            n == b@.len(),
            i <= n,
            a@.subrange(0, i as int) == b@.subrange(0, i as int),
        decreases n - i,
    {
        if a.get_char(i) != b.get_char(i) {
            return false;
        }
        proof {
            assert(a@.subrange(0, i + 1) == a@.subrange(0, i as int).push(a@[i as int]));
            assert(b@.subrange(0, i + 1) == b@.subrange(0, i as int).push(b@[i as int]));
        }
        i += 1;
    }
    assert(a@ == a@.subrange(0, n as int));
    assert(b@ == b@.subrange(0, n as int));
    true
}

/// Classifies a word that has the shape of an identifier.
pub fn keyword_to_token(word: &str) -> (r: TokenType)
    ensures
        r == keyword_type(word@),
{
    if same_text(word, "and") {
        TokenType::And
    } else if same_text(word, "class") {
        TokenType::Class
    } else if same_text(word, "else") {
        TokenType::Else
    } else if same_text(word, "false") {
        TokenType::False
    } else if same_text(word, "fun") {
        TokenType::Fun
    } else if same_text(word, "for") {
        TokenType::For
    } else if same_text(word, "if") {
        TokenType::If
    } else if same_text(word, "nil") {
        TokenType::Nil
    } else if same_text(word, "or") {
        TokenType::Or
    } else if same_text(word, "print") {
        TokenType::Print
    } else if same_text(word, "return") {
        TokenType::Return
    } else if same_text(word, "super") {
        TokenType::Super
    } else if same_text(word, "this") {
        TokenType::This
    } else if same_text(word, "true") {
        TokenType::True
    } else if same_text(word, "var") {
        TokenType::Var
    } else if same_text(word, "while") {
        TokenType::While
    } else {
        TokenType::Identifier
    }
}

/// What a token holds, as mathematical values.
pub struct TokenView {
    pub token_type: TokenType,
    /// The exact source text of the token.
    pub lexeme: Seq<char>,
    /// The decoded payload of a string or number token; empty for the others.
    pub literal: Seq<char>,
    /// The source line, counted from 1.
    pub line: nat,
}

/// A token of the source text.
#[derive(Clone, Debug)]
pub struct Token {
    token_type: TokenType,
    lexeme: String,
    literal: String,
    line: usize,
}

impl View for Token {
    type V = TokenView;

    closed spec fn view(&self) -> TokenView {
        TokenView {
            token_type: self.token_type,
            lexeme: self.lexeme@,
            literal: self.literal@,
            line: self.line as nat,
        }
    }
}

impl Token {
    pub fn new(token_type: TokenType, lexeme: &str, literal: &str, line: usize) -> (r: Token)
        ensures
            r@ == (TokenView { token_type, lexeme: lexeme@, literal: literal@, line: line as nat }),
    {
        Token {
            token_type,
            lexeme: String::from_str(lexeme),
            literal: String::from_str(literal),
            line,
        }
    }

    pub fn token_type(&self) -> (r: TokenType)
        ensures
            r == self@.token_type,
    {
        self.token_type
    }

    pub fn literal(&self) -> (r: String)
        ensures
            r@ == self@.literal,
    {
        self.literal.clone()
    }

    pub fn lexeme(&self) -> (r: String)
        ensures
            r@ == self@.lexeme,
    {
        self.lexeme.clone()
    }

    pub fn line(&self) -> (r: usize)
        ensures
            r == self@.line,
    {
        self.line
    }
}


/// Whether position `i` of `s` holds `c`.
pub open spec fn char_is(s: Seq<char>, i: int, c: char) -> bool {
    0 <= i < s.len() && s[i] == c
}

/// The number of digits in a row from position `i`.
pub open spec fn digit_run(s: Seq<char>, i: nat) -> nat
    decreases s.len() - i,
{
    if i < s.len() && spec_is_digit(s[i as int]) {
        1 + digit_run(s, i + 1)
    } else {
        0
    }
}

/// The number of identifier characters in a row from position `i`.
pub open spec fn ident_run(s: Seq<char>, i: nat) -> nat
    decreases s.len() - i,
{
    if i < s.len() && spec_is_alphanumeric(s[i as int]) {
        1 + ident_run(s, i + 1)
    } else {
        0
    }
}

/// The number of characters from position `i` up to the end of the line.
pub open spec fn line_run(s: Seq<char>, i: nat) -> nat
    decreases s.len() - i,
{
    if i < s.len() && s[i as int] != '\n' {
        1 + line_run(s, i + 1)
    } else {
        0
    }
}

/// The number of characters from position `i` up to the next double quote.
pub open spec fn string_run(s: Seq<char>, i: nat) -> nat
    decreases s.len() - i,
{
    if i < s.len() && s[i as int] != '"' {
        1 + string_run(s, i + 1)
    } else {
        0
    }
}

/// The number of newlines in `s`.
pub open spec fn count_newlines(s: Seq<char>) -> nat
    decreases s.len(),
{
    if s.len() == 0 {
        0
    } else {
        count_newlines(s.drop_last()) + if s.last() == '\n' {
            1nat
        } else {
            0nat
        }
    }
}

/// The end of a number that starts with the digit at position `i`: a run of
/// digits, then a dot and a second run of digits if a digit follows the dot.
pub open spec fn number_end(s: Seq<char>, i: nat) -> nat {
    let e = i + 1 + digit_run(s, i + 1);
    if char_is(s, e as int, '.') && e + 1 < s.len() && spec_is_digit(s[e + 1int]) {
        e + 2 + digit_run(s, e + 2)
    } else {
        e
    }
}

/// The token of a character that stands alone.
pub open spec fn one_char_type(c: char) -> TokenType {
    if c == '(' {
        TokenType::LeftParen
    } else if c == ')' {
        TokenType::RightParen
    } else if c == '{' {
        TokenType::LeftBrace
    } else if c == '}' {
        TokenType::RightBrace
    } else if c == ',' {
        TokenType::Comma
    } else if c == '.' {
        TokenType::Dot
    } else if c == '-' {
        TokenType::Minus
    } else if c == '+' {
        TokenType::Plus
    } else if c == ';' {
        TokenType::Semicolon
    } else if c == '*' {
        TokenType::Star
    } else if c == '/' {
        TokenType::Slash
    } else if c == '!' {
        TokenType::Bang
    } else if c == '=' {
        TokenType::Equal
    } else if c == '<' {
        TokenType::Less
    } else if c == '>' {
        TokenType::Greater
    } else {
        TokenType::Unknown
    }
}

/// Whether `c` followed by `=` makes a two-character operator.
pub open spec fn pairs_with_equal(c: char) -> bool {
    c == '!' || c == '=' || c == '<' || c == '>'
}

/// The two-character operator made of `c` and `=`.
pub open spec fn two_char_type(c: char) -> TokenType {
    if c == '!' {
        TokenType::BangEqual
    } else if c == '=' {
        TokenType::EqualEqual
    } else if c == '<' {
        TokenType::LessEqual
    } else {
        TokenType::GreaterEqual
    }
}

/// One step of the lexer at position `i` of `s`, on line `line`: the token it
/// emits, if any, the position where it goes on, and the line there.
///
/// A string with no closing quote runs to the end of the input.
pub open spec fn scan_step(s: Seq<char>, i: nat, line: nat) -> (Option<TokenView>, nat, nat)
    recommends
        i < s.len(),
{
    let c = s[i as int];
    if c == '/' && char_is(s, i + 1int, '/') {
        (None, i + 2 + line_run(s, i + 2), line)
    } else if c == ' ' || c == '\t' || c == '\r' {
        (None, i + 1, line)
    } else if c == '\n' {
        (None, i + 1, line + 1)
    } else if c == '"' {
        let close = i + 1 + string_run(s, i + 1);
        let end = if close < s.len() {
            close + 1
        } else {
            close
        };
        let l = line + count_newlines(s.subrange(i + 1int, close as int));
        (
            Some(
                TokenView {
                    token_type: TokenType::StringLiteral,
                    lexeme: s.subrange(i as int, end as int),
                    literal: s.subrange(i + 1int, close as int),
                    line: l,
                },
            ),
            end,
            l,
        )
    } else if spec_is_digit(c) {
        let e = number_end(s, i);
        let text = s.subrange(i as int, e as int);
        (Some(TokenView { token_type: TokenType::Number, lexeme: text, literal: text, line }), e, line)
    } else if spec_is_alpha(c) {
        let e = i + 1 + ident_run(s, i + 1);
        let text = s.subrange(i as int, e as int);
        (
            Some(TokenView { token_type: keyword_type(text), lexeme: text, literal: seq![], line }),
            e,
            line,
        )
    } else if pairs_with_equal(c) && char_is(s, i + 1int, '=') {
        (
            Some(
                TokenView {
                    token_type: two_char_type(c),
                    lexeme: s.subrange(i as int, i + 2int),
                    literal: seq![],
                    line,
                },
            ),
            i + 2,
            line,
        )
    } else {
        (
            Some(
                TokenView {
                    token_type: one_char_type(c),
                    lexeme: s.subrange(i as int, i + 1int),
                    literal: seq![],
                    line,
                },
            ),
            i + 1,
            line,
        )
    }
}

/// The token that closes every scan.
pub open spec fn eof_token(line: nat) -> TokenView {
    TokenView { token_type: TokenType::Eof, lexeme: seq![], literal: seq![], line }
}

/// The element of `o`, as a sequence of zero or one.
pub open spec fn option_seq<T>(o: Option<T>) -> Seq<T> {
    match o {
        Some(t) => seq![t],
        None => seq![],
    }
}

proof fn lemma_runs_bounded(s: Seq<char>, i: nat)
    requires
        i <= s.len(),
    ensures
        i + digit_run(s, i) <= s.len(),
        i + ident_run(s, i) <= s.len(),
        i + line_run(s, i) <= s.len(),
        i + string_run(s, i) <= s.len(),
    decreases s.len() - i,
{
    if i < s.len() {
        lemma_runs_bounded(s, i + 1);
    }
}

/// Each step of the lexer moves forward and stays within the input.
pub proof fn lemma_scan_step_advances(s: Seq<char>, i: nat, line: nat)
    requires
        i < s.len(),
    ensures
        i < scan_step(s, i, line).1 <= s.len(),
        line <= scan_step(s, i, line).2,
{
    lemma_runs_bounded(s, i + 1);
    if i + 2 <= s.len() {
        lemma_runs_bounded(s, i + 2);
    }
    let e = i + 1 + digit_run(s, i + 1);
    if e + 2 <= s.len() {
        lemma_runs_bounded(s, e + 2);
    }
}

#[via_fn]
proof fn scan_from_decreases(s: Seq<char>, i: nat, line: nat) {
    if i < s.len() {
        lemma_scan_step_advances(s, i, line);
    }
}

/// The tokens of `s` from position `i` on, starting on line `line`.
pub open spec fn scan_from(s: Seq<char>, i: nat, line: nat) -> Seq<TokenView>
    decreases s.len() - i via scan_from_decreases
{
    if i < s.len() {
        let (t, j, l) = scan_step(s, i, line);
        option_seq(t) + scan_from(s, j, l)
    } else {
        seq![eof_token(line)]
    }
}

/// Every character of `s` is a digit, and there is at least one.
pub open spec fn all_digits(s: Seq<char>) -> bool {
    s.len() > 0 && forall|i: int| 0 <= i < s.len() ==> spec_is_digit(#[trigger] s[i])
}

/// The text of a number literal: digits, or digits, a dot and digits.
pub open spec fn is_number_literal(n: Seq<char>) -> bool {
    all_digits(n) || exists|k: int|
        0 < k < n.len() - 1 && #[trigger] n[k] == '.' && all_digits(n.subrange(0, k)) && all_digits(
            n.subrange(k + 1, n.len() as int),
        )
}

proof fn lemma_digit_run(s: Seq<char>, i: nat, j: nat)
    requires
        i <= j <= s.len(),
        forall|k: int| i <= k < j ==> spec_is_digit(#[trigger] s[k]),
        j == s.len() || !spec_is_digit(s[j as int]),
    ensures
        digit_run(s, i) == j - i,
    decreases j - i,
{
    if i < j {
        lemma_digit_run(s, i + 1, j);
    }
}

/// A number literal followed by a character that cannot continue it is read whole.
pub proof fn lemma_number_literal_end(n: Seq<char>, c: char)
    requires
        is_number_literal(n),
        !spec_is_digit(c),
        c != '.',
    ensures
        spec_is_digit(n.push(c)[0]),
        number_end(n.push(c), 0) == n.len(),
{
    let s = n.push(c);
    if all_digits(n) {
        assert(forall|k: int| 1 <= k < n.len() ==> s[k] == n[k]);
        lemma_digit_run(s, 1, n.len());
    } else {
        let k = choose|k: int|
            0 < k < n.len() - 1 && #[trigger] n[k] == '.' && all_digits(n.subrange(0, k))
                && all_digits(n.subrange(k + 1, n.len() as int));
        assert(forall|j: int| 0 <= j < k ==> s[j] == n.subrange(0, k)[j]);
        assert(forall|j: int| k + 1 <= j < n.len() ==> s[j] == n.subrange(k + 1, n.len() as int)[j
            - k - 1]);
        lemma_digit_run(s, 1, k as nat);
        lemma_digit_run(s, (k + 2) as nat, n.len());
    }
}

/// A scan is never empty, and its last token is `Eof`.
pub proof fn lemma_scan_from_ends_with_eof(s: Seq<char>, i: nat, line: nat)
    ensures
        scan_from(s, i, line).len() > 0,
        scan_from(s, i, line).last().token_type == TokenType::Eof,
    decreases s.len() - i,
{
    if i < s.len() {
        lemma_scan_step_advances(s, i, line);
        let (t, j, l) = scan_step(s, i, line);
        lemma_scan_from_ends_with_eof(s, j, l);
    }
}

/// The tokens of a whole source text.
pub open spec fn scan(s: Seq<char>) -> Seq<TokenView> {
    scan_from(s, 0, 1)
}


/// The tokens of `tokens`, as mathematical values.
pub open spec fn view_tokens(tokens: Seq<Token>) -> Seq<TokenView> {
    tokens.map_values(|t: Token| t@)
}

/// The lexer: one forward pass over the characters of a source text.
pub struct Scanner {
    source_text: String,
    ascii: bool,
    chars: Vec<char>,
    tokens: Vec<Token>,
    ix: usize,
    start: usize,
    line: usize,
}

impl View for Scanner {
    type V = Seq<char>;

    /// The source text.
    closed spec fn view(&self) -> Seq<char> {
        self.source_text@
    }
}

impl Scanner {
    spec fn wf(&self) -> bool {
        &&& self.chars@ == self.source_text@
        &&& self.ascii == self.source_text.is_ascii()
        &&& self.chars@.len() < usize::MAX
        &&& self.start <= self.ix <= self.chars@.len()
        &&& 1 <= self.line <= self.ix + 1
    }

    /// A scanner that has not read anything yet.
    pub closed spec fn is_fresh(&self) -> bool {
        &&& self.wf()
        &&& self.ix == 0
        &&& self.line == 1
        &&& self.tokens@.len() == 0
    }

    pub fn new(source_text: &str) -> (r: Scanner)
        requires
            source_text@.len() < usize::MAX,
        ensures
            r@ == source_text@,
            r.is_fresh(),
    {
        let n = source_text.unicode_len();
        let mut chars: Vec<char> = Vec::new();
        while chars.len() < n
            invariant
                n == source_text@.len(),
                chars@.len() <= n,
                chars@ == source_text@.subrange(0, chars@.len() as int),
            decreases n - chars@.len(),
        {
            let c = source_text.get_char(chars.len());
            proof {
                assert(source_text@.subrange(0, chars@.len() + 1int) == chars@.push(c));
            }
            chars.push(c);
        }
        assert(chars@ == source_text@);
        let source_text = String::from_str(source_text);
        let ascii = source_text.is_ascii();
        Scanner { source_text, ascii, chars, tokens: Vec::new(), ix: 0, start: 0, line: 1 }
    }

    /// Scans the whole text, closing the tokens with `Eof`.
    pub fn scan_tokens(self) -> (r: Vec<Token>)
        requires
            self.is_fresh(),
        ensures
            view_tokens(r@) == scan(self@),
    {
        let mut scanner = self;
        let ghost s = scanner.chars@;
        while scanner.ix < scanner.chars.len()
            invariant
                scanner.wf(),
                scanner.chars@ == s,
                s == self@,
                scan(s) == view_tokens(scanner.tokens@) + scan_from(s, scanner.ix as nat, scanner.line as nat),
            decreases s.len() - scanner.ix,
        {
            scanner.start = scanner.ix;
            let ghost tokens0 = view_tokens(scanner.tokens@);
            let ghost (t, j, l) = scan_step(s, scanner.ix as nat, scanner.line as nat);
            scanner.scan_token();
            proof {
                assert(view_tokens(scanner.tokens@) == tokens0 + option_seq(t));
                assert(tokens0 + (option_seq(t) + scan_from(s, j, l)) == (tokens0 + option_seq(t))
                    + scan_from(s, j, l));
            }
        }
        scanner.start = scanner.ix;
        let ghost tokens0 = view_tokens(scanner.tokens@);
        scanner.add_token(TokenType::Eof);
        proof {
            assert(s.subrange(s.len() as int, s.len() as int) =~= seq![]);
            assert(scanner.tokens@.last()@ == eof_token(scanner.line as nat));
            assert(view_tokens(scanner.tokens@) == tokens0 + seq![eof_token(scanner.line as nat)]);
        }
        scanner.tokens
    }

    /// `self` is `old` after one step of the lexer from position `i`.
    spec fn stepped(&self, old: &Scanner, i: nat) -> bool {
        let (t, j, l) = scan_step(old.chars@, i, old.line as nat);
        &&& self.wf()
        &&& self.chars@ == old.chars@
        &&& self.source_text == old.source_text
        &&& self.ix == j
        &&& self.line == l
        &&& view_tokens(self.tokens@) == view_tokens(old.tokens@) + option_seq(t)
    }

    /// Reads the token that starts at the cursor, or skips a blank or a comment.
    fn scan_token(&mut self)
        requires
            old(self).wf(),
            old(self).ix < old(self).chars@.len(),
            old(self).start == old(self).ix,
        ensures
            final(self).stepped(old(self), old(self).ix as nat),
    {
        let ghost s = self.chars@;
        let ghost i = self.ix as nat;
        let c = self.chars[self.ix];
        self.ix += 1;
        if c == '/' && self.match_next('/') {
            // a comment runs to the end of the line
            while self.ix < self.chars.len() && self.chars[self.ix] != '\n'
                invariant
                    self.wf(),
                    self.chars@ == s,
                    self.tokens@ == old(self).tokens@,
                    self.line == old(self).line,
                    self.source_text == old(self).source_text,
                    i + 2 <= self.ix,
                    self.ix + line_run(s, self.ix as nat) == i + 2 + line_run(s, i + 2),
                decreases s.len() - self.ix,
            {
                self.ix += 1;
            }
            proof {
                assert(view_tokens(self.tokens@) == view_tokens(old(self).tokens@) + option_seq(
                    None::<TokenView>,
                ));
            }
            return;
        }
        if c == ' ' || c == '\t' || c == '\r' {
            assert(view_tokens(self.tokens@) == view_tokens(old(self).tokens@) + option_seq(
                None::<TokenView>,
            ));
            return;
        }
        if c == '\n' {
            self.line += 1;
            assert(view_tokens(self.tokens@) == view_tokens(old(self).tokens@) + option_seq(
                None::<TokenView>,
            ));
            return;
        }
        if c == '"' {
            self.scan_string();
            return;
        }
        if is_digit(c) {
            self.scan_number();
            return;
        }
        if is_alpha(c) {
            self.scan_identifier();
            return;
        }
        let token_type = if (c == '!' || c == '=' || c == '<' || c == '>') && self.match_next('=') {
            two_char_token(c)
        } else {
            one_char_token(c)
        };
        let ghost tokens0 = view_tokens(self.tokens@);
        self.add_token(token_type);
        assert(view_tokens(self.tokens@) =~= tokens0 + seq![self.tokens@.last()@]);
    }

    /// Reads a string literal; the cursor is past its opening quote.
    fn scan_string(&mut self)
        requires
            old(self).wf(),
            old(self).ix == old(self).start + 1,
            old(self).line <= old(self).start + 1,
            char_is(old(self).chars@, old(self).start as int, '"'),
        ensures
            final(self).stepped(old(self), old(self).start as nat),
    {
        let ghost s = self.chars@;
        let ghost i = self.start as nat;
        let ghost close = i + 1 + string_run(s, i + 1);
        while self.ix < self.chars.len() && self.chars[self.ix] != '"'
            invariant
                self.wf(),
                self.chars@ == s,
                self.tokens@ == old(self).tokens@,
                self.source_text == old(self).source_text,
                self.start == i,
                i + 1 <= self.ix,
                self.line <= self.ix,
                self.ix + string_run(s, self.ix as nat) == close,
                self.line == old(self).line + count_newlines(s.subrange(i + 1int, self.ix as int)),
            decreases s.len() - self.ix,
        {
            assert(s.subrange(i + 1int, self.ix + 1int).drop_last() == s.subrange(i + 1int, self.ix as int));
            if self.chars[self.ix] == '\n' {
                self.line += 1;
            }
            self.ix += 1;
        }
        let close_ix = self.ix;
        if self.ix < self.chars.len() {
            self.ix += 1;
        }
        let literal = self.slice(self.start + 1, close_ix);
        let ghost tokens0 = view_tokens(self.tokens@);
        self.add_token_literal(TokenType::StringLiteral, literal);
        assert(view_tokens(self.tokens@) =~= tokens0 + seq![self.tokens@.last()@]);
    }

    /// Reads a number; the cursor is past its first digit.
    fn scan_number(&mut self)
        requires
            old(self).wf(),
            old(self).ix == old(self).start + 1,
            old(self).start < old(self).chars@.len(),
            spec_is_digit(old(self).chars@[old(self).start as int]),
        ensures
            final(self).stepped(old(self), old(self).start as nat),
    {
        let ghost s = self.chars@;
        let ghost i = self.start as nat;
        let ghost e = i + 1 + digit_run(s, i + 1);
        while self.ix < self.chars.len() && is_digit(self.chars[self.ix])
            invariant
                self.wf(),
                self.chars@ == s,
                self.tokens@ == old(self).tokens@,
                self.source_text == old(self).source_text,
                self.start == i,
                self.line == old(self).line,
                i + 1 <= self.ix,
                self.ix + digit_run(s, self.ix as nat) == e,
            decreases s.len() - self.ix,
        {
            self.ix += 1;
        }
        let fraction = match (self.this_char(), self.peek()) {
            (Some('.'), Some(d)) => is_digit(d),
            _ => false,
        };
        if fraction {
            self.ix += 1;
            let ghost e2 = e + 2 + digit_run(s, e + 2);
            while self.ix < self.chars.len() && is_digit(self.chars[self.ix])
                invariant
                    self.wf(),
                    self.chars@ == s,
                    self.tokens@ == old(self).tokens@,
                    self.source_text == old(self).source_text,
                    self.start == i,
                    self.line == old(self).line,
                    i + 1 <= self.ix,
                    self.ix + digit_run(s, self.ix as nat) == e2,
                decreases s.len() - self.ix,
            {
                self.ix += 1;
            }
        }
        let literal = self.slice(self.start, self.ix);
        let ghost tokens0 = view_tokens(self.tokens@);
        self.add_token_literal(TokenType::Number, literal);
        assert(view_tokens(self.tokens@) =~= tokens0 + seq![self.tokens@.last()@]);
    }

    /// Reads an identifier or a keyword; the cursor is past its first character.
    fn scan_identifier(&mut self)
        requires
            old(self).wf(),
            old(self).ix == old(self).start + 1,
            old(self).start < old(self).chars@.len(),
            spec_is_alpha(old(self).chars@[old(self).start as int]),
        ensures
            final(self).stepped(old(self), old(self).start as nat),
    {
        let ghost s = self.chars@;
        let ghost i = self.start as nat;
        let ghost e = i + 1 + ident_run(s, i + 1);
        while self.ix < self.chars.len() && is_alphanumeric(self.chars[self.ix])
            invariant
                self.wf(),
                self.chars@ == s,
                self.tokens@ == old(self).tokens@,
                self.source_text == old(self).source_text,
                self.start == i,
                self.line == old(self).line,
                i + 1 <= self.ix,
                self.ix + ident_run(s, self.ix as nat) == e,
            decreases s.len() - self.ix,
        {
            self.ix += 1;
        }
        let word = self.slice(self.start, self.ix);
        let token_type = keyword_to_token(word.as_str());
        let ghost tokens0 = view_tokens(self.tokens@);
        self.add_token(token_type);
        assert(view_tokens(self.tokens@) =~= tokens0 + seq![self.tokens@.last()@]);
    }

    /// The character at the cursor.
    fn this_char(&self) -> (r: Option<char>)
        requires
            self.wf(),
        ensures
            r == (if self.ix < self.chars@.len() {
                Some(self.chars@[self.ix as int])
            } else {
                None
            }),
    {
        if self.ix < self.chars.len() {
            Some(self.chars[self.ix])
        } else {
            None
        }
    }

    /// The character after the one at the cursor.
    fn peek(&self) -> (r: Option<char>)
        requires
            self.wf(),
        ensures
            r == (if self.ix + 1 < self.chars@.len() {
                Some(self.chars@[self.ix + 1])
            } else {
                None
            }),
    {
        if self.ix + 1 < self.chars.len() {
            Some(self.chars[self.ix + 1])
        } else {
            None
        }
    }

    /// Consumes the character at the cursor if it is `expected`.
    fn match_next(&mut self, expected: char) -> (r: bool)
        requires
            old(self).wf(),
        ensures
            r == char_is(old(self).chars@, old(self).ix as int, expected),
            final(self).ix == if r {
                old(self).ix + 1
            } else {
                old(self).ix as int
            },
            final(self).wf(),
            final(self).chars == old(self).chars,
            final(self).source_text == old(self).source_text,
            final(self).tokens == old(self).tokens,
            final(self).start == old(self).start,
            final(self).line == old(self).line,
    {
        if self.ix < self.chars.len() && self.chars[self.ix] == expected {
            self.ix += 1;
            true
        } else {
            false
        }
    }

    /// The source text from `from` to `to`.
    fn slice(&self, from: usize, to: usize) -> (r: String)
        requires
            self.wf(),
            from <= to <= self.chars@.len(),
        ensures
            r@ == self.chars@.subrange(from as int, to as int),
    {
        let text = self.source_text.as_str();
        if self.ascii {
            String::from_str(text.substring_ascii(from, to))
        } else {
            String::from_str(text.substring_char(from, to))
        }
    }

    fn add_token(&mut self, token_type: TokenType)
        requires
            old(self).wf(),
        ensures
            final(self).wf(),
            final(self).chars == old(self).chars,
            final(self).source_text == old(self).source_text,
            final(self).ix == old(self).ix,
            final(self).start == old(self).start,
            final(self).line == old(self).line,
            final(self).tokens@ == old(self).tokens@.push(final(self).tokens@.last()),
            final(self).tokens@.last()@ == (TokenView {
                token_type,
                lexeme: old(self).chars@.subrange(old(self).start as int, old(self).ix as int),
                literal: seq![],
                line: old(self).line as nat,
            }),
    {
        self.add_token_literal(token_type, String::new());
    }

    fn add_token_literal(&mut self, token_type: TokenType, literal: String)
        requires
            old(self).wf(),
        ensures
            final(self).wf(),
            final(self).chars == old(self).chars,
            final(self).source_text == old(self).source_text,
            final(self).ix == old(self).ix,
            final(self).start == old(self).start,
            final(self).line == old(self).line,
            final(self).tokens@ == old(self).tokens@.push(final(self).tokens@.last()),
            final(self).tokens@.last()@ == (TokenView {
                token_type,
                lexeme: old(self).chars@.subrange(old(self).start as int, old(self).ix as int),
                literal: literal@,
                line: old(self).line as nat,
            }),
    {
        let lexeme = self.slice(self.start, self.ix);
        let token = Token { token_type, lexeme, literal, line: self.line };
        self.tokens.push(token);
    }
}

fn one_char_token(c: char) -> (r: TokenType)
    ensures
        r == one_char_type(c),
{
    if c == '(' {
        TokenType::LeftParen
    } else if c == ')' {
        TokenType::RightParen
    } else if c == '{' {
        TokenType::LeftBrace
    } else if c == '}' {
        TokenType::RightBrace
    } else if c == ',' {
        TokenType::Comma
    } else if c == '.' {
        TokenType::Dot
    } else if c == '-' {
        TokenType::Minus
    } else if c == '+' {
        TokenType::Plus
    } else if c == ';' {
        TokenType::Semicolon
    } else if c == '*' {
        TokenType::Star
    } else if c == '/' {
        TokenType::Slash
    } else if c == '!' {
        TokenType::Bang
    } else if c == '=' {
        TokenType::Equal
    } else if c == '<' {
        TokenType::Less
    } else if c == '>' {
        TokenType::Greater
    } else {
        TokenType::Unknown
    }
}

fn two_char_token(c: char) -> (r: TokenType)
    ensures
        r == two_char_type(c),
{
    if c == '!' {
        TokenType::BangEqual
    } else if c == '=' {
        TokenType::EqualEqual
    } else if c == '<' {
        TokenType::LessEqual
    } else {
        TokenType::GreaterEqual
    }
}

} // verus!
