//! Boolean expressions over keys.
//!
//! An expression names keys and combines them with `&&`, `||` and
//! parentheses; it is matched against a set of keys and holds if the keys it
//! asks for are among them. The grammar, read as a parsing expression
//! grammar (each repetition takes as much as it can, and a choice keeps its
//! first alternative that matches):
//!
//! ```text
//! expression := ws or ws END
//! or         := and (ws "||" ws and)*
//! and        := term ((ws "&&" ws | WS) term)*
//! term       := "(" ws or ws ")" | literal
//! literal    := "'" body "'" | '"' body '"' | word
//! ```
//!
//! `ws` is any run of blanks (space, tab, line feed, carriage return), `WS` a
//! run of at least one: two terms that stand side by side with blanks between
//! them are joined by `&&`. So `&&` binds tighter than `||`.
//!
//! A `word` is the longest run of word characters: every character but a
//! blank, a quote, a parenthesis or `&`; a `|` that is followed by another
//! `|` starts the operator and ends the word. The `body` of a quoted literal
//! runs to the next quote of the same kind and is taken as it stands, blanks
//! and symbols included. A literal is never empty and never begins with `-`.
//!
//! [`parse_expression`] is this grammar as a function; [`holds`] says when
//! a parsed expression matches.

use vstd::prelude::*;
use vstd::string::*;
use crate::text::chars_of;
use crate::text::str_eq;

verus! {

/// A parsed expression, as a mathematical value.
pub enum Formula {
    /// Holds if the key is present.
    Key(Seq<char>),
    /// Holds if both sides hold.
    And(Box<Formula>, Box<Formula>),
    /// Holds if one side holds.
    Or(Box<Formula>, Box<Formula>),
}

/// A parsed expression.
#[derive(Debug)]
pub enum Expr {
    /// Holds if the key is present.
    Key(String),
    /// Holds if both sides hold.
    And(Box<Expr>, Box<Expr>),
    /// Holds if one side holds.
    Or(Box<Expr>, Box<Expr>),
}

impl View for Expr {
    type V = Formula;

    open spec fn view(&self) -> Formula
        decreases self,
    {
        match self {
            Expr::Key(k) => Formula::Key(k@),
            Expr::And(a, b) => Formula::And(Box::new((**a).view()), Box::new((**b).view())),
            Expr::Or(a, b) => Formula::Or(Box::new((**a).view()), Box::new((**b).view())),
        }
    }
}

/// Whether `f` holds of the keys `keys`.
pub open spec fn holds(f: Formula, keys: Seq<Seq<char>>) -> bool
    decreases f,
{
    match f {
        Formula::Key(k) => keys.contains(k),
        Formula::And(a, b) => holds(*a, keys) && holds(*b, keys),
        Formula::Or(a, b) => holds(*a, keys) || holds(*b, keys),
    }
}

/// The texts of `keys`.
pub open spec fn texts(keys: Seq<&str>) -> Seq<Seq<char>> {
    keys.map_values(|k: &str| k@)
}

/// The texts of `keys`.
pub open spec fn string_texts(keys: Seq<String>) -> Seq<Seq<char>> {
    keys.map_values(|k: String| k@)
}

/// `c` is a blank.
pub open spec fn is_blank(c: char) -> bool {
    c == ' ' || c == '\t' || c == '\n' || c == '\r'
}

/// `s[i..]` begins with the two characters `a`, `b`.
pub open spec fn has_pair_at(s: Seq<char>, i: int, a: char, b: char) -> bool {
    0 <= i && i + 1 < s.len() && s[i] == a && s[i + 1] == b
}

/// `s[i]` is a character of a word.
pub open spec fn word_char_at(s: Seq<char>, i: int) -> bool {
    &&& 0 <= i < s.len()
    &&& !is_blank(s[i])
    &&& s[i] != '\'' && s[i] != '"'
    &&& s[i] != '(' && s[i] != ')'
    &&& s[i] != '&'
    &&& !has_pair_at(s, i, '|', '|')
}

/// The first position at or after `i` that holds no blank.
pub open spec fn skip_blanks(s: Seq<char>, i: int) -> int
    decreases s.len() - i,
{
    if 0 <= i < s.len() && is_blank(s[i]) {
        skip_blanks(s, i + 1)
    } else {
        i
    }
}

/// The first position at or after `i` that holds no word character.
pub open spec fn word_end(s: Seq<char>, i: int) -> int
    decreases s.len() - i,
{
    if word_char_at(s, i) {
        word_end(s, i + 1)
    } else {
        i
    }
}

/// The first position at or after `i` that holds `quote`, or the end of `s`.
pub open spec fn quote_end(s: Seq<char>, i: int, quote: char) -> int
    decreases s.len() - i,
{
    if 0 <= i < s.len() && s[i] != quote {
        quote_end(s, i + 1, quote)
    } else {
        i
    }
}

/// A literal at position `i`: the key it names and where it ends.
pub open spec fn parse_literal(s: Seq<char>, i: int) -> Option<(Formula, int)> {
    if !(0 <= i < s.len()) {
        None
    } else if s[i] == '\'' || s[i] == '"' {
        let close = quote_end(s, i + 1, s[i]);
        if close >= s.len() || close == i + 1 || s[i + 1] == '-' {
            None
        } else {
            Some((Formula::Key(s.subrange(i + 1, close)), close + 1))
        }
    } else {
        let end = word_end(s, i);
        if end == i || s[i] == '-' {
            None
        } else {
            Some((Formula::Key(s.subrange(i, end)), end))
        }
    }
}

/// `found`, if it ends behind position `i` and within `s`; `None` otherwise.
/// No term is empty and none runs past the end, so this changes no result:
/// it records the fact where the definitions below need it.
pub open spec fn advancing(s: Seq<char>, i: int, found: Option<(Formula, int)>) -> Option<
    (Formula, int),
> {
    match found {
        Some((f, j)) => if 0 <= i < j <= s.len() {
            Some((f, j))
        } else {
            None
        },
        None => None,
    }
}

/// A term at position `i`: what it says and where it ends.
pub open spec fn parse_term(s: Seq<char>, i: int) -> Option<(Formula, int)>
    decreases s.len() - i, 0nat,
{
    if 0 <= i < s.len() && s[i] == '(' {
        let inner = skip_blanks(s, i + 1);
        if i < inner <= s.len() {
            match advancing(s, inner, parse_or(s, inner)) {
                Some((f, j)) => {
                    let k = skip_blanks(s, j);
                    if 0 <= k < s.len() && s[k] == ')' {
                        Some((f, k + 1))
                    } else {
                        None
                    }
                },
                None => None,
            }
        } else {
            None
        }
    } else {
        parse_literal(s, i)
    }
}

/// Where the term that continues a conjunction at position `i` would start:
/// behind `&&` and the blanks around it, or behind at least one blank. `None`
/// if position `i` holds neither.
pub open spec fn next_conjunct(s: Seq<char>, i: int) -> Option<int> {
    let k = skip_blanks(s, i);
    if has_pair_at(s, k, '&', '&') {
        Some(skip_blanks(s, k + 2))
    } else if k > i {
        Some(k)
    } else {
        None
    }
}

/// Where the conjunction that continues a disjunction at position `i` would
/// start: behind `||` and the blanks around it. `None` if there is no `||`.
pub open spec fn next_disjunct(s: Seq<char>, i: int) -> Option<int> {
    let k = skip_blanks(s, i);
    if has_pair_at(s, k, '|', '|') {
        Some(skip_blanks(s, k + 2))
    } else {
        None
    }
}

/// The rest of a conjunction whose terms so far say `left` and end at `i`:
/// as many further terms as there are.
pub open spec fn parse_and_rest(s: Seq<char>, left: Formula, i: int) -> (Formula, int)
    decreases s.len() - i, 1nat,
{
    match next_conjunct(s, i) {
        Some(k) => if 0 <= i <= k <= s.len() {
            match advancing(s, k, parse_term(s, k)) {
                Some((f, j)) => parse_and_rest(s, Formula::And(Box::new(left), Box::new(f)), j),
                None => (left, i),
            }
        } else {
            (left, i)
        },
        None => (left, i),
    }
}

/// A conjunction at position `i`.
pub open spec fn parse_and(s: Seq<char>, i: int) -> Option<(Formula, int)>
    decreases s.len() - i, 2nat,
{
    match advancing(s, i, parse_term(s, i)) {
        Some((f, j)) => Some(parse_and_rest(s, f, j)),
        None => None,
    }
}

/// The rest of a disjunction whose conjunctions so far say `left` and end at
/// `i`: as many further conjunctions as there are.
pub open spec fn parse_or_rest(s: Seq<char>, left: Formula, i: int) -> (Formula, int)
    decreases s.len() - i, 3nat,
{
    match next_disjunct(s, i) {
        Some(k) => if 0 <= i < k <= s.len() {
            match advancing(s, k, parse_and(s, k)) {
                Some((f, j)) => parse_or_rest(s, Formula::Or(Box::new(left), Box::new(f)), j),
                None => (left, i),
            }
        } else {
            (left, i)
        },
        None => (left, i),
    }
}

/// A disjunction at position `i`.
pub open spec fn parse_or(s: Seq<char>, i: int) -> Option<(Formula, int)>
    decreases s.len() - i, 4nat,
{
    match advancing(s, i, parse_and(s, i)) {
        Some((f, j)) => Some(parse_or_rest(s, f, j)),
        None => None,
    }
}

/// What the whole of `s` says, if it is an expression.
pub open spec fn parse_expression(s: Seq<char>) -> Option<Formula> {
    match parse_or(s, skip_blanks(s, 0)) {
        Some((f, j)) => if skip_blanks(s, j) == s.len() {
            Some(f)
        } else {
            None
        },
        None => None,
    }
}

/// A parsing function's result `out` is what the grammar gives.
pub open spec fn agrees(out: Option<(Expr, usize)>, model: Option<(Formula, int)>) -> bool {
    match out {
        Some((e, j)) => model == Some((e@, j as int)),
        None => model is None,
    }
}

fn blank(c: char) -> (b: bool)
    ensures
        b == is_blank(c),
{
    c == ' ' || c == '\t' || c == '\n' || c == '\r'
}

fn pair_at(chars: &Vec<char>, i: usize, a: char, b: char) -> (found: bool)
    ensures
        found == has_pair_at(chars@, i as int, a, b),
{
    i < chars.len() && chars.len() - i > 1 && chars[i] == a && chars[i + 1] == b
}

fn word_char(chars: &Vec<char>, i: usize) -> (found: bool)
    ensures
        found == word_char_at(chars@, i as int),
{
    if i >= chars.len() {
        return false;
    }
    let c = chars[i];
    !blank(c) && c != '\'' && c != '"' && c != '(' && c != ')' && c != '&' && !pair_at(
        chars,
        i,
        '|',
        '|',
    )
}

fn past_blanks(chars: &Vec<char>, i: usize) -> (k: usize)
    requires
        i <= chars@.len(),
    ensures
        k == skip_blanks(chars@, i as int),
        i <= k <= chars@.len(),
{
    let mut k = i;
    while k < chars.len() && blank(chars[k])
        invariant
            i <= k <= chars@.len(),
            skip_blanks(chars@, k as int) == skip_blanks(chars@, i as int),
        decreases chars@.len() - k,
    {
        k = k + 1;
    }
    k
}

fn past_word(chars: &Vec<char>, i: usize) -> (k: usize)
    requires
        i <= chars@.len(),
    ensures
        k == word_end(chars@, i as int),
        i <= k <= chars@.len(),
{
    let n = chars.len();
    let mut k = i;
    while word_char(chars, k)
        invariant
            n == chars@.len(),
            i <= k <= n,
            word_end(chars@, k as int) == word_end(chars@, i as int),
        decreases n - k,
    {
        k = k + 1;
    }
    k
}

fn find_quote(chars: &Vec<char>, i: usize, quote: char) -> (k: usize)
    requires
        i <= chars@.len(),
    ensures
        k == quote_end(chars@, i as int, quote),
        i <= k <= chars@.len(),
{
    let mut k = i;
    while k < chars.len() && chars[k] != quote
        invariant
            i <= k <= chars@.len(),
            quote_end(chars@, k as int, quote) == quote_end(chars@, i as int, quote),
        decreases chars@.len() - k,
    {
        k = k + 1;
    }
    k
}

fn read_literal(input: &str, chars: &Vec<char>, i: usize) -> (out: Option<(Expr, usize)>)
    requires
        chars@ == input@,
        i <= chars@.len(),
    ensures
        agrees(out, parse_literal(chars@, i as int)),
        out matches Some((_, j)) ==> i < j <= chars@.len(),
{
    if i >= chars.len() {
        return None;
    }
    let c = chars[i];
    if c == '\'' || c == '"' {
        let close = find_quote(chars, i + 1, c);
        if close >= chars.len() || close == i + 1 || chars[i + 1] == '-' {
            return None;
        }
        let key = input.substring_char(i + 1, close).to_owned();
        Some((Expr::Key(key), close + 1))
    } else {
        let end = past_word(chars, i);
        if end == i || c == '-' {
            return None;
        }
        let key = input.substring_char(i, end).to_owned();
        Some((Expr::Key(key), end))
    }
}

fn read_term(input: &str, chars: &Vec<char>, i: usize) -> (out: Option<(Expr, usize)>)
    requires
        chars@ == input@,
        i <= chars@.len(),
    ensures
        agrees(out, parse_term(chars@, i as int)),
        out matches Some((_, j)) ==> i < j <= chars@.len(),
    decreases chars@.len() - i, 0nat,
{
    if i < chars.len() && chars[i] == '(' {
        let inner = past_blanks(chars, i + 1);
        match read_or(input, chars, inner) {
            Some((e, j)) => {
                let k = past_blanks(chars, j);
                if k < chars.len() && chars[k] == ')' {
                    Some((e, k + 1))
                } else {
                    None
                }
            },
            None => None,
        }
    } else {
        read_literal(input, chars, i)
    }
}

fn conjunct_start(chars: &Vec<char>, i: usize) -> (out: Option<usize>)
    requires
        i <= chars@.len(),
    ensures
        out matches Some(k) ==> next_conjunct(chars@, i as int) == Some(k as int) && i < k
            <= chars@.len(),
        out is None ==> next_conjunct(chars@, i as int) is None,
{
    let n = chars.len();
    let k = past_blanks(chars, i);
    if pair_at(chars, k, '&', '&') {
        assert(k + 2 <= n);
        Some(past_blanks(chars, k + 2))
    } else if k > i {
        Some(k)
    } else {
        None
    }
}

fn disjunct_start(chars: &Vec<char>, i: usize) -> (out: Option<usize>)
    requires
        i <= chars@.len(),
    ensures
        out matches Some(k) ==> next_disjunct(chars@, i as int) == Some(k as int) && i < k
            <= chars@.len(),
        out is None ==> next_disjunct(chars@, i as int) is None,
{
    let n = chars.len();
    let k = past_blanks(chars, i);
    if pair_at(chars, k, '|', '|') {
        assert(k + 2 <= n);
        Some(past_blanks(chars, k + 2))
    } else {
        None
    }
}

fn read_and(input: &str, chars: &Vec<char>, i: usize) -> (out: Option<(Expr, usize)>)
    requires
        chars@ == input@,
        i <= chars@.len(),
    ensures
        agrees(out, parse_and(chars@, i as int)),
        out matches Some((_, j)) ==> i < j <= chars@.len(),
    decreases chars@.len() - i, 2nat,
{
    let (mut left, mut at) = match read_term(input, chars, i) {
        Some(found) => found,
        None => {
            return None;
        },
    };
    loop
        invariant
            chars@ == input@,
            i < at <= chars@.len(),
            parse_and(chars@, i as int) == Some(parse_and_rest(chars@, left@, at as int)),
        decreases chars@.len() - at,
    {
        let k = match conjunct_start(chars, at) {
            Some(k) => k,
            None => {
                return Some((left, at));
            },
        };
        match read_term(input, chars, k) {
            Some((right, j)) => {
                left = Expr::And(Box::new(left), Box::new(right));
                at = j;
            },
            None => {
                return Some((left, at));
            },
        }
    }
}

fn read_or(input: &str, chars: &Vec<char>, i: usize) -> (out: Option<(Expr, usize)>)
    requires
        chars@ == input@,
        i <= chars@.len(),
    ensures
        agrees(out, parse_or(chars@, i as int)),
        out matches Some((_, j)) ==> i < j <= chars@.len(),
    decreases chars@.len() - i, 4nat,
{
    let (mut left, mut at) = match read_and(input, chars, i) {
        Some(found) => found,
        None => {
            return None;
        },
    };
    loop
        invariant
            chars@ == input@,
            i < at <= chars@.len(),
            parse_or(chars@, i as int) == Some(parse_or_rest(chars@, left@, at as int)),
        decreases chars@.len() - at,
    {
        let k = match disjunct_start(chars, at) {
            Some(k) => k,
            None => {
                return Some((left, at));
            },
        };
        match read_and(input, chars, k) {
            Some((right, j)) => {
                left = Expr::Or(Box::new(left), Box::new(right));
                at = j;
            },
            None => {
                return Some((left, at));
            },
        }
    }
}

/// An expression that failed to parse.
#[derive(Debug)]
pub struct ParseError {
    /// The text that is no expression.
    pub input: String,
}

/// Parses `input`.
pub fn parse(input: &str) -> (out: Result<Expr, ParseError>)
    ensures
        match out {
            Ok(e) => parse_expression(input@) == Some(e@),
            Err(err) => parse_expression(input@) is None && err.input@ == input@,
        },
{
    let chars = chars_of(input);
    let start = past_blanks(&chars, 0);
    match read_or(input, &chars, start) {
        Some((e, j)) => {
            let end = past_blanks(&chars, j);
            if end == chars.len() {
                Ok(e)
            } else {
                Err(ParseError { input: input.to_owned() })
            }
        },
        None => Err(ParseError { input: input.to_owned() }),
    }
}

/// Whether `key` is one of `keys`.
fn among(key: &str, keys: &[&str]) -> (found: bool)
    ensures
        found == texts(keys@).contains(key@),
{
    let n = keys.len();
    let mut i: usize = 0;
    while i < n
        invariant
            n == keys@.len(),
            i <= n,
            forall|j: int| 0 <= j < i ==> texts(keys@)[j] != key@,
        decreases n - i,
    {
        if str_eq(keys[i], key) {
            proof {
                assert(texts(keys@)[i as int] == key@);
            }
            return true;
        }
        i = i + 1;
    }
    false
}

/// Whether `e` holds of `keys`.
fn eval(e: &Expr, keys: &[&str]) -> (found: bool)
    ensures
        found == holds(e@, texts(keys@)),
    decreases e,
{
    match e {
        Expr::Key(k) => among(k.as_str(), keys),
        Expr::And(a, b) => eval(a, keys) && eval(b, keys),
        Expr::Or(a, b) => eval(a, keys) || eval(b, keys),
    }
}

/// The parser of the expression grammar.
pub struct EParser;

impl EParser {
    /// Parses `input`: the expression it holds, or the input back in an error.
    pub fn parse(input: &str) -> (out: Result<Expr, ParseError>)
        ensures
            match out {
                Ok(e) => parse_expression(input@) == Some(e@),
                Err(err) => parse_expression(input@) is None && err.input@ == input@,
            },
    {
        parse(input)
    }
}

/// An expression that was parsed once and can be matched against many sets
/// of keys.
pub struct ExprMatcher {
    expr: Expr,
}

impl View for ExprMatcher {
    type V = Formula;

    closed spec fn view(&self) -> Formula {
        self.expr@
    }
}

impl ExprMatcher {
    /// Parses `input` into a matcher. Text that is no expression comes back
    /// in the error; it is never read as an expression that matches nothing.
    pub fn new(input: &str) -> (out: Result<ExprMatcher, ParseError>)
        ensures
            match out {
                Ok(m) => parse_expression(input@) == Some(m@),
                Err(err) => parse_expression(input@) is None && err.input@ == input@,
            },
    {
        match parse(input) {
            Ok(expr) => Ok(ExprMatcher { expr }),
            Err(err) => Err(err),
        }
    }

    /// Whether the expression holds of `keys`.
    pub fn matches_keys(&self, keys: &[&str]) -> (found: bool)
        ensures
            found == holds(self@, texts(keys@)),
    {
        eval(&self.expr, keys)
    }
}

/// A matcher for `input`, which must be an expression.
pub fn expr_matcher(input: &str) -> (m: ExprMatcher)
    requires
        parse_expression(input@) is Some,
    ensures
        parse_expression(input@) == Some(m@),
{
    match ExprMatcher::new(input) {
        Ok(m) => m,
        Err(_) => vstd::pervasive::unreached(),
    }
}

/// Parses `input` and says whether it holds of `keys`.
pub fn matches_keys_in_parsed_expr(keys: &[&str], input: &str) -> (out: Result<bool, ParseError>)
    ensures
        match out {
            Ok(found) => parse_expression(input@) matches Some(f) && found == holds(
                f,
                texts(keys@),
            ),
            Err(err) => parse_expression(input@) is None && err.input@ == input@,
        },
{
    match parse(input) {
        Ok(expr) => Ok(eval(&expr, keys)),
        Err(err) => Err(err),
    }
}

/// `c` may stand in a bare word: it is no blank, quote, parenthesis, `&` or
/// `|`.
pub open spec fn is_plain(c: char) -> bool {
    !is_blank(c) && c != '\'' && c != '"' && c != '(' && c != ')' && c != '&' && c != '|'
}

/// `w` is a bare word: it is not empty, holds plain characters only, and
/// does not begin with `-`.
pub open spec fn is_bare_word(w: Seq<char>) -> bool {
    &&& w.len() > 0
    &&& w[0] != '-'
    &&& forall|i: int| 0 <= i < w.len() ==> is_plain(#[trigger] w[i])
}

/// What joins two words into a conjunction: a blank, or `&&` between blanks.
pub open spec fn joint(with_operator: bool) -> Seq<char> {
    if with_operator {
        seq![' ', '&', '&', ' ']
    } else {
        seq![' ']
    }
}

/// The conjunction of the keys `a` and `b`.
pub open spec fn both(a: Seq<char>, b: Seq<char>) -> Formula {
    Formula::And(Box::new(Formula::Key(a)), Box::new(Formula::Key(b)))
}

proof fn lemma_word_end(s: Seq<char>, i: int, end: int)
    requires
        0 <= i <= end <= s.len(),
        forall|j: int| i <= j < end ==> is_plain(#[trigger] s[j]),
        end == s.len() || is_blank(s[end]),
    ensures
        word_end(s, i) == end,
    decreases end - i,
{
    if i < end {
        assert(is_plain(s[i]));
        assert(word_char_at(s, i));
        lemma_word_end(s, i + 1, end);
    } else {
        assert(!word_char_at(s, i));
    }
}

proof fn lemma_two_words(a: Seq<char>, b: Seq<char>, with_operator: bool)
    requires
        is_bare_word(a),
        is_bare_word(b),
    ensures
        parse_expression(a + joint(with_operator) + b) == Some(both(a, b)),
{
    let sep = joint(with_operator);
    let s = a + sep + b;
    let la = a.len() as int;
    let start = la + sep.len();
    let n = s.len() as int;
    assert forall|j: int| 0 <= j < la implies is_plain(#[trigger] s[j]) by {
        assert(s[j] == a[j]);
    }
    assert forall|j: int| start <= j < n implies is_plain(#[trigger] s[j]) by {
        assert(s[j] == b[j - start]);
    }
    assert(s[0] == a[0]);
    assert(s[start] == b[0]);
    assert(s[la] == ' ');
    assert(is_plain(s[0]) && is_plain(s[start]));
    // The first word.
    assert(skip_blanks(s, 0) == 0);
    lemma_word_end(s, 0, la);
    assert(s.subrange(0, la) =~= a);
    assert(parse_literal(s, 0) == Some((Formula::Key(a), la)));
    assert(parse_term(s, 0) == Some((Formula::Key(a), la)));
    // What joins the two.
    assert(skip_blanks(s, start) == start);
    if with_operator {
        assert(s[la + 1] == '&' && s[la + 2] == '&' && s[la + 3] == ' ');
        assert(skip_blanks(s, la + 1) == la + 1);
        assert(skip_blanks(s, la) == la + 1);
        assert(has_pair_at(s, la + 1, '&', '&'));
        assert(skip_blanks(s, la + 3) == start);
    } else {
        assert(skip_blanks(s, la) == start);
        assert(!has_pair_at(s, start, '&', '&'));
    }
    assert(next_conjunct(s, la) == Some(start));
    // The second word.
    lemma_word_end(s, start, n);
    assert(s.subrange(start, n) =~= b);
    assert(parse_literal(s, start) == Some((Formula::Key(b), n)));
    assert(parse_term(s, start) == Some((Formula::Key(b), n)));
    // Nothing follows.
    assert(skip_blanks(s, n) == n);
    assert(next_conjunct(s, n) is None);
    assert(next_disjunct(s, n) is None);
    assert(parse_and_rest(s, both(a, b), n) == (both(a, b), n));
    assert(parse_and_rest(s, Formula::Key(a), la) == (both(a, b), n));
    assert(parse_and(s, 0) == Some((both(a, b), n)));
    assert(parse_or_rest(s, both(a, b), n) == (both(a, b), n));
    assert(parse_or(s, 0) == Some((both(a, b), n)));
}

/// Two bare words that stand side by side are the conjunction of the two,
/// as they are with `&&` between them: the expression holds where both
/// words are among the keys.
pub proof fn lemma_implicit_and(a: Seq<char>, b: Seq<char>, keys: Seq<Seq<char>>)
    requires
        is_bare_word(a),
        is_bare_word(b),
    ensures
        parse_expression(a + seq![' '] + b) == Some(both(a, b)),
        parse_expression(a + seq![' ', '&', '&', ' '] + b) == Some(both(a, b)),
        holds(both(a, b), keys) == (keys.contains(a) && keys.contains(b)),
{
    lemma_two_words(a, b, false);
    lemma_two_words(a, b, true);
    assert(holds(Formula::Key(a), keys) == keys.contains(a));
    assert(holds(Formula::Key(b), keys) == keys.contains(b));
}

/// A match does not depend on which further keys are present: an expression
/// that holds of some keys holds of every larger set.
pub proof fn lemma_holds_monotone(f: Formula, keys: Seq<Seq<char>>, more: Seq<Seq<char>>)
    requires
        holds(f, keys),
        forall|k: Seq<char>| keys.contains(k) ==> more.contains(k),
    ensures
        holds(f, more),
    decreases f,
{
    match f {
        Formula::Key(k) => {},
        Formula::And(a, b) => {
            lemma_holds_monotone(*a, keys, more);
            lemma_holds_monotone(*b, keys, more);
        },
        Formula::Or(a, b) => {
            if holds(*a, keys) {
                lemma_holds_monotone(*a, keys, more);
            } else {
                lemma_holds_monotone(*b, keys, more);
            }
        },
    }
}

} // verus!
