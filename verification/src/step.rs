//! Reading the DATA section of a STEP (ISO 10303-21) exchange file: the
//! parameters of an entity instance, one instance per statement, and the map
//! from instance ids to instances.

use vstd::prelude::*;

use crate::text::{
    chars_of, decimal_chars, decimal_text, digit, find_char, find_from, is_digit, is_digit_char, lemma_scan,
    number_end, number_ok, parse_u32, parse_u32_chars, scan, scan_back, scan_number, skip_digits,
    sub_chars, trim, trim_chars, is_white_space, white, lemma_scan_back,
};

verus! {

/// `std::io::Error`, declared so that `StepError::Io` can carry it; nothing
/// is claimed of it and no verified code looks inside.
#[verifier::external_type_specification]
#[verifier::external_body]
pub struct ExIoError(std::io::Error);

/// Why a STEP file could not be read.
#[derive(Debug)]
pub enum StepError {
    Io(std::io::Error),
    Parse(String),
}

/// The message of a parse error (empty for an I/O error).
pub open spec fn parse_text(e: StepError) -> Seq<char> {
    match e {
        StepError::Parse(t) => t@,
        StepError::Io(_) => Seq::empty(),
    }
}

/// One parameter of an entity instance.
#[derive(Debug)]
pub enum Param {
    /// `*`
    Omitted,
    /// `#id`
    Ref(u32),
    /// `.NAME.`
    Enum(Vec<char>),
    /// `'text'`, with `''` standing for one quote
    Str(Vec<char>),
    /// A number, as written; always a literal that `str::parse::<f64>` accepts.
    Real(Vec<char>),
    /// `( .. , .. )`
    List(Vec<Param>),
}

/// What a `Param` holds, with text as sequences of characters.
pub enum ParamView {
    Omitted,
    Ref(u32),
    Enum(Seq<char>),
    Str(Seq<char>),
    Real(Seq<char>),
    List(Seq<ParamView>),
}

pub open spec fn param_view(p: Param) -> ParamView
    decreases p,
{
    match p {
        Param::Omitted => ParamView::Omitted,
        Param::Ref(r) => ParamView::Ref(r),
        Param::Enum(v) => ParamView::Enum(v@),
        Param::Str(v) => ParamView::Str(v@),
        Param::Real(v) => ParamView::Real(v@),
        Param::List(v) => ParamView::List(params_view(v@)),
    }
}

pub open spec fn params_view(s: Seq<Param>) -> Seq<ParamView>
    decreases s,
{
    if s.len() == 0 {
        Seq::empty()
    } else {
        params_view(s.drop_last()).push(param_view(s.last()))
    }
}

pub proof fn lemma_params_view(s: Seq<Param>)
    ensures
        params_view(s).len() == s.len(),
        forall|i: int| 0 <= i < s.len() ==> #[trigger] params_view(s)[i] == s[i]@,
    decreases s.len(),
{
    if s.len() > 0 {
        lemma_params_view(s.drop_last());
        assert forall|i: int| 0 <= i < s.len() implies #[trigger] params_view(s)[i] == s[i]@ by {
            if i < s.len() - 1 {
                assert(s.drop_last()[i] == s[i]);
            }
        }
    }
}

impl View for Param {
    type V = ParamView;

    open spec fn view(&self) -> ParamView {
        param_view(*self)
    }
}

/// The four characters that separate parameters.
pub open spec fn blank() -> spec_fn(char) -> bool {
    |c: char| c == ' ' || c == '\t' || c == '\n' || c == '\r'
}

pub open spec fn skip_blank(s: Seq<char>, i: int) -> int {
    scan(s, i, blank())
}

/// The text of a quoted string whose body starts at `i`, with `acc` already
/// read, and the index after its closing quote; `None` when it is not closed.
pub open spec fn sp_quoted(s: Seq<char>, i: int, acc: Seq<char>) -> Option<(Seq<char>, int)>
    decreases s.len() - i,
{
    if !(0 <= i < s.len()) {
        None
    } else if s[i] == '\'' {
        if i + 1 < s.len() && s[i + 1] == '\'' {
            sp_quoted(s, i + 2, acc.push('\''))
        } else {
            Some((acc, i + 1))
        }
    } else {
        sp_quoted(s, i + 1, acc.push(s[i]))
    }
}

/// The text that `{:?}` gives for a character (`<char as Debug>::fmt`).
pub uninterp spec fn char_debug(c: char) -> Seq<char>;

/// `format!("{:?}", c)`, the debug text of a character, as characters.
/// The claim is that the result is `char_debug(c)` and, as std documents for
/// `char::escape_debug`, that a printable ASCII character other than a
/// quote, a double quote or a backslash is written as is between single
/// quotes; nothing is claimed of the escapes of other characters.
#[verifier::external_body]
fn debug_text_of_char(c: char) -> (res: Vec<char>)
    ensures
        res@ == char_debug(c),
        (' ' <= c <= '~' && c != '\'' && c != '"' && c != '\\') ==> res@ == seq!['\'', c, '\''],
{
    format!("{:?}", c).chars().collect()
}

/// The message for an unexpected character, or for the end of the text.
pub open spec fn unexpected_token(c: Option<char>) -> Seq<char> {
    match c {
        None => "unexpected token: None"@,
        Some(c) => "unexpected token: Some("@ + char_debug(c) + ")"@,
    }
}

/// The parameter that starts at `pos` (after blanks), and the index after it;
/// the error message when the text there is not a parameter.
pub open spec fn sp_param(s: Seq<char>, pos: int) -> Result<(ParamView, int), Seq<char>>
    decreases s.len() - pos,
{
    let p = skip_blank(s, pos);
    if !(0 <= pos <= s.len()) {
        // not reached: parameters are read from inside the text
        Err(Seq::empty())
    } else {
        proof {
            lemma_scan(s, pos, blank());
        }
        if p >= s.len() {
            Err(unexpected_token(None))
        } else if s[p] == '*' {
            Ok((ParamView::Omitted, p + 1))
        } else if s[p] == '#' {
            let e = scan(s, p + 1, digit());
            match parse_u32(s.subrange(p + 1, e)) {
                Some(v) => Ok((ParamView::Ref(v), e)),
                None => Err("bad entity ref"@),
            }
        } else if s[p] == '.' {
            let e = find_from(s, p + 1, '.');
            Ok((ParamView::Enum(s.subrange(p + 1, e)), if e < s.len() { e + 1 } else { e }))
        } else if s[p] == '\'' {
            match sp_quoted(s, p + 1, Seq::empty()) {
                Some((text, e)) => Ok((ParamView::Str(text), e)),
                None => Err("unterminated string"@),
            }
        } else if s[p] == '(' {
            let q = skip_blank(s, p + 1);
            proof {
                lemma_scan(s, p + 1, blank());
            }
            let items = if q < s.len() && s[q] == ')' {
                Ok((Seq::<ParamView>::empty(), q))
            } else {
                match sp_param(s, q) {
                    Ok((x, e)) => if q < e <= s.len() {
                        proof {
                            lemma_scan(s, e, blank());
                        }
                        sp_more(s, skip_blank(s, e), seq![x])
                    } else {
                        // not reached: a parameter takes at least one character
                        Err(Seq::empty())
                    },
                    Err(msg) => Err(msg),
                }
            };
            match items {
                Ok((xs, e)) => {
                    let r = skip_blank(s, e);
                    if 0 <= e <= r < s.len() && s[r] == ')' {
                        Ok((ParamView::List(xs), r + 1))
                    } else {
                        Err("expected ')'"@)
                    }
                },
                Err(msg) => Err(msg),
            }
        } else if s[p] == '-' || is_digit(s[p]) {
            if number_ok(s, p) {
                Ok((ParamView::Real(s.subrange(p, number_end(s, p))), number_end(s, p)))
            } else {
                Err("bad number: "@ + s.subrange(p, number_end(s, p)))
            }
        } else {
            Err(unexpected_token(Some(s[p])))
        }
    }
}

/// A parameter that starts with `-` or a digit and is a decimal literal
/// (as `law_number_literal` describes it, an exponent sign `+` or `-`
/// included) is read as one `Real` parameter holding exactly its text.
pub proof fn law_param_number(
    s: Seq<char>,
    p: int,
    neg: bool,
    b: int,
    point: bool,
    c: int,
    exp: bool,
    sign: bool,
    e: int,
)
    requires
        0 <= p < e <= s.len(),
        s[p] == '-' || is_digit(s[p]),
        neg ==> s[p] == '-',
        !neg ==> s[p] != '-',
        (if neg { p + 1 } else { p }) <= b <= c <= e,
        forall|k: int| (if neg { p + 1 } else { p }) <= k < b ==> is_digit(#[trigger] s[k]),
        point ==> b < s.len() && s[b] == '.' && b + 1 <= c && forall|k: int|
            b + 1 <= k < c ==> is_digit(#[trigger] s[k]),
        !point ==> c == b,
        (b - (if neg { p + 1 } else { p })) + (if point { c - b - 1 } else { 0 }) >= 1,
        exp ==> {
            let d = if sign { c + 2 } else { c + 1 };
            &&& c < s.len()
            &&& (s[c] == 'E' || s[c] == 'e')
            &&& sign ==> c + 1 < s.len() && (s[c + 1] == '+' || s[c + 1] == '-')
            &&& d < e
            &&& forall|k: int| d <= k < e ==> is_digit(#[trigger] s[k])
        },
        !exp ==> e == c,
        e == s.len() || (!is_digit(s[e]) && (point || exp || s[e] != '.') && (exp || (s[e] != 'E'
            && s[e] != 'e'))),
    ensures
        sp_param(s, p) == Ok::<(ParamView, int), Seq<char>>((ParamView::Real(s.subrange(p, e)), e)),
{
    crate::text::law_number_literal(s, p, neg, b, point, c, exp, sign, e);
    assert(!blank()(s[p]));
    assert(skip_blank(s, p) == p);
}

/// The parameters that follow `acc` in a comma-separated run, from the blank-
/// free index `pos` on, and the index after the run (where no comma follows).
pub open spec fn sp_more(s: Seq<char>, pos: int, acc: Seq<ParamView>) -> Result<
    (Seq<ParamView>, int),
    Seq<char>,
>
    decreases s.len() - pos,
{
    if 0 <= pos < s.len() && s[pos] == ',' {
        match sp_param(s, pos + 1) {
            Ok((x, e)) => if pos < e <= s.len() {
                proof {
                    lemma_scan(s, e, blank());
                }
                sp_more(s, skip_blank(s, e), acc.push(x))
            } else {
                // not reached: a parameter takes at least one character
                Err(Seq::empty())
            },
            Err(msg) => Err(msg),
        }
    } else {
        Ok((acc, pos))
    }
}

/// The parameters of an instance, from the text inside its parentheses, and
/// the index where reading stops: the end of blank text, or the first place
/// after a parameter that is not followed by a comma.
pub open spec fn sp_param_list(s: Seq<char>) -> Result<(Seq<ParamView>, int), Seq<char>> {
    let p = skip_blank(s, 0);
    if p >= s.len() {
        Ok((Seq::empty(), p))
    } else {
        match sp_param(s, p) {
            Ok((x, e)) => if p < e <= s.len() {
                sp_more(s, skip_blank(s, e), seq![x])
            } else {
                // not reached: a parameter takes at least one character
                Err(Seq::empty())
            },
            Err(msg) => Err(msg),
        }
    }
}

/// The characters of `v` collected into a `String` (`String::from_iter`);
/// the claim is that the string holds exactly these characters, in order.
#[verifier::external_body]
pub(crate) fn string_from_chars(v: &Vec<char>) -> (res: String)
    ensures
        res@ == v@,
{
    v.iter().collect()
}

/// A parse error with the message `msg`.
pub(crate) fn parse_error(msg: &str) -> (res: StepError)
    ensures
        res matches StepError::Parse(text) && text@ == msg@,
{
    StepError::Parse(String::from_str(msg))
}

/// A parse error with the message `msg` followed by `detail`.
pub(crate) fn parse_error_with(msg: &str, detail: &Vec<char>) -> (res: StepError)
    ensures
        res matches StepError::Parse(text) && text@ == msg@ + detail@,
{
    let mut text = chars_of(msg);
    let mut i: usize = 0;
    while i < detail.len()
        invariant
            i <= detail.len(),
            text@ == msg@ + detail@.take(i as int),
        decreases detail.len() - i,
    {
        text.push(detail[i]);
        i = i + 1;
        assert(text@ =~= msg@ + detail@.take(i as int));
    }
    assert(detail@.take(detail@.len() as int) =~= detail@);
    StepError::Parse(string_from_chars(&text))
}

/// A parse error with the message `msg` followed by `n` in decimal.
pub(crate) fn parse_error_num(msg: &str, n: u64) -> (res: StepError)
    ensures
        res is Parse,
        parse_text(res) == msg@ + decimal_text(n as nat),
{
    let d = decimal_chars(n);
    parse_error_with(msg, &d)
}

/// A parse error with the message `msg`, then `n` in decimal, then `tail`.
pub(crate) fn parse_error_id(msg: &str, n: u64, tail: &str) -> (res: StepError)
    ensures
        res matches StepError::Parse(text) && text@ == msg@ + decimal_text(n as nat) + tail@,
        parse_text(res) == msg@ + decimal_text(n as nat) + tail@,
{
    let mut detail = decimal_chars(n);
    let t = chars_of(tail);
    let ghost d0 = detail@;
    let mut i: usize = 0;
    while i < t.len()
        invariant
            i <= t@.len(),
            detail@ == d0 + t@.take(i as int),
        decreases t@.len() - i,
    {
        detail.push(t[i]);
        i = i + 1;
        assert(detail@ =~= d0 + t@.take(i as int));
    }
    assert(t@.take(t@.len() as int) =~= t@);
    assert(msg@ + detail@ =~= msg@ + d0 + t@);
    parse_error_with(msg, &detail)
}

/// A cursor over the text inside the parentheses of an instance.
struct Parser<'a> {
    input: &'a Vec<char>,
    pos: usize,
}

impl<'a> Parser<'a> {
    fn new(input: &'a Vec<char>) -> (res: Self)
        ensures
            res.input == input,
            res.pos == 0,
    {
        Parser { input, pos: 0 }
    }

    fn peek(&self) -> (res: Option<char>)
        ensures
            res == (if self.pos < self.input@.len() {
                Some(self.input@[self.pos as int])
            } else {
                None::<char>
            }),
    {
        if self.pos < self.input.len() {
            Some(self.input[self.pos])
        } else {
            None
        }
    }

    fn advance(&mut self) -> (res: Option<char>)
        requires
            old(self).pos <= old(self).input@.len(),
        ensures
            final(self).input == old(self).input,
            old(self).pos < old(self).input@.len() ==> res == Some(
                old(self).input@[old(self).pos as int],
            ) && final(self).pos == old(self).pos + 1,
            old(self).pos >= old(self).input@.len() ==> res is None && final(self).pos == old(
                self,
            ).pos,
    {
        if self.pos < self.input.len() {
            let c = self.input[self.pos];
            self.pos = self.pos + 1;
            Some(c)
        } else {
            None
        }
    }

    fn skip_ws(&mut self)
        requires
            old(self).pos <= old(self).input@.len(),
        ensures
            final(self).input == old(self).input,
            final(self).pos == skip_blank(old(self).input@, old(self).pos as int),
    {
        let ghost start = self.pos as int;
        while self.pos < self.input.len() && (self.input[self.pos] == ' ' || self.input[self.pos]
            == '\t' || self.input[self.pos] == '\n' || self.input[self.pos] == '\r')
            invariant
                self.input == old(self).input,
                old(self).pos <= self.pos <= self.input@.len(),
                start == old(self).pos,
                skip_blank(self.input@, self.pos as int) == skip_blank(self.input@, start),
            decreases self.input@.len() - self.pos,
        {
            self.pos = self.pos + 1;
        }
    }

    /// The rest of a quoted string whose opening quote was just read.
    fn parse_quoted(&mut self) -> (res: Result<Vec<char>, StepError>)
        requires
            old(self).pos <= old(self).input@.len(),
        ensures
            final(self).input == old(self).input,
            match res {
                Ok(text) => sp_quoted(old(self).input@, old(self).pos as int, Seq::empty()) == Some(
                    (text@, final(self).pos as int),
                ) && old(self).pos < final(self).pos <= old(self).input@.len(),
                Err(e) => {
                    &&& sp_quoted(old(self).input@, old(self).pos as int, Seq::empty()) is None
                    &&& e matches StepError::Parse(t) && t@ == "unterminated string"@
                },
            },
    {
        let ghost s = self.input@;
        let ghost start = self.pos as int;
        let mut text: Vec<char> = Vec::new();
        loop
            invariant
                self.input == old(self).input,
                s == self.input@,
                start == old(self).pos,
                start <= self.pos <= s.len(),
                sp_quoted(s, self.pos as int, text@) == sp_quoted(s, start, Seq::empty()),
            decreases s.len() - self.pos,
        {
            match self.advance() {
                None => {
                    return Err(parse_error("unterminated string"));
                },
                Some(c) => {
                    if c == '\'' {
                        if self.peek() == Some('\'') {
                            self.advance();
                            text.push('\'');
                        } else {
                            return Ok(text);
                        }
                    } else {
                        text.push(c);
                    }
                },
            }
        }
    }

    fn parse_param(&mut self) -> (res: Result<Param, StepError>)
        requires
            old(self).pos <= old(self).input@.len(),
        ensures
            final(self).input == old(self).input,
            match res {
                Ok(p) => sp_param(old(self).input@, old(self).pos as int) == Ok::<_, Seq<char>>(
                    (p@, final(self).pos as int),
                ) && old(self).pos < final(self).pos <= old(self).input@.len(),
                Err(e) => e matches StepError::Parse(t) && sp_param(
                    old(self).input@,
                    old(self).pos as int,
                ) == Err::<(ParamView, int), Seq<char>>(t@),
            },
        decreases old(self).input@.len() - old(self).pos,
    {
        let ghost s = self.input@;
        let ghost start = self.pos as int;
        self.skip_ws();
        proof {
            lemma_scan(s, start, blank());
        }
        let p = self.pos;
        if p >= self.input.len() {
            return Err(parse_error("unexpected token: None"));
        }
        let c = self.input[p];
        if c == '*' {
            self.advance();
            Ok(Param::Omitted)
        } else if c == '#' {
            self.advance();
            let e = skip_digits(self.input, self.pos);
            proof {
                lemma_scan(s, p + 1, digit());
            }
            self.pos = e;
            let digits = sub_chars(self.input, p + 1, e);
            match parse_u32_chars(&digits) {
                Some(v) => Ok(Param::Ref(v)),
                None => Err(parse_error("bad entity ref")),
            }
        } else if c == '.' {
            self.advance();
            let e = find_char(self.input, self.pos, '.');
            proof {
                lemma_scan(s, p + 1, crate::text::other_than('.'));
            }
            let name = sub_chars(self.input, p + 1, e);
            self.pos = e;
            self.advance();
            Ok(Param::Enum(name))
        } else if c == '\'' {
            self.advance();
            match self.parse_quoted() {
                Ok(text) => Ok(Param::Str(text)),
                Err(e) => Err(e),
            }
        } else if c == '(' {
            self.advance();
            let mut items: Vec<Param> = Vec::new();
            self.skip_ws();
            let q = self.pos;
            proof {
                lemma_scan(s, p + 1, blank());
            }
            let ghost inner: Option<(Seq<ParamView>, int)>;
            if self.peek() != Some(')') {
                let first = match self.parse_param() {
                    Ok(x) => x,
                    Err(e) => {
                        return Err(e);
                    },
                };
                let ghost e1 = self.pos as int;
                let ghost x = first@;
                items.push(first);
                proof {
                    assert(items@.drop_last() =~= Seq::<Param>::empty());
                    assert(params_view(Seq::<Param>::empty()) =~= Seq::<ParamView>::empty());
                    assert(params_view(items@) =~= seq![x]);
                    lemma_scan(s, e1, blank());
                }
                self.skip_ws();
                let ghost after_first = self.pos as int;
                while self.peek() == Some(',')
                    invariant
                        self.input == old(self).input,
                        s == self.input@,
                        start == old(self).pos,
                        start <= p < q,
                        q < after_first <= self.pos <= s.len(),
                        p == skip_blank(s, start),
                        s[p as int] == '(',
                        q == skip_blank(s, p + 1),
                        !(q < s.len() && s[q as int] == ')'),
                        sp_param(s, q as int) == Ok::<_, Seq<char>>((x, e1)),
                        q < e1 <= s.len(),
                        after_first == skip_blank(s, e1),
                        sp_more(s, self.pos as int, params_view(items@)) == sp_more(
                            s,
                            after_first,
                            seq![x],
                        ),
                    decreases s.len() - self.pos,
                {
                    let ghost here = self.pos as int;
                    self.advance();
                    let y = match self.parse_param() {
                        Ok(y) => y,
                        Err(e) => {
                            return Err(e);
                        },
                    };
                    let ghost items_before = items@;
                    let ghost e2 = self.pos as int;
                    items.push(y);
                    proof {
                        assert(items@.drop_last() =~= items_before);
                        lemma_scan(s, e2, blank());
                    }
                    self.skip_ws();
                }
                proof {
                    inner = Some((params_view(items@), self.pos as int));
                }
            } else {
                proof {
                    inner = Some((Seq::<ParamView>::empty(), q as int));
                    assert(params_view(items@) =~= Seq::<ParamView>::empty());
                }
            }
            let ghost e = self.pos as int;
            self.skip_ws();
            proof {
                lemma_scan(s, e, blank());
            }
            match self.advance() {
                Some(d) => {
                    if d == ')' {
                        Ok(Param::List(items))
                    } else {
                        Err(parse_error("expected ')'"))
                    }
                },
                None => Err(parse_error("expected ')'")),
            }
        } else if c == '-' || is_digit_char(c) {
            let (e, ok) = scan_number(self.input, p);
            let tok = sub_chars(self.input, p, e);
            self.pos = e;
            if ok {
                Ok(Param::Real(tok))
            } else {
                Err(parse_error_with("bad number: ", &tok))
            }
        } else {
            let mut detail = debug_text_of_char(c);
            let ghost d = detail@;
            detail.push(')');
            proof {
                reveal_strlit(")");
                assert(detail@ =~= d + ")"@);
                assert("unexpected token: Some("@ + detail@ =~= "unexpected token: Some("@ + d
                    + ")"@);
            }
            Err(parse_error_with("unexpected token: Some(", &detail))
        }
    }

    /// The parameters of an instance: blank text, or parameters separated by
    /// commas (what follows the last one is not read).
    fn parse_param_list(&mut self) -> (res: Result<Vec<Param>, StepError>)
        requires
            old(self).pos == 0,
        ensures
            match res {
                Ok(v) => sp_param_list(old(self).input@) == Ok::<_, Seq<char>>(
                    (params_view(v@), final(self).pos as int),
                ),
                Err(e) => e matches StepError::Parse(t) && sp_param_list(old(self).input@) == Err::<
                    (Seq<ParamView>, int),
                    Seq<char>,
                >(t@),
            },
    {
        let ghost s = self.input@;
        let mut params: Vec<Param> = Vec::new();
        self.skip_ws();
        proof {
            lemma_scan(s, 0, blank());
        }
        if self.pos >= self.input.len() {
            assert(params_view(params@) =~= Seq::<ParamView>::empty());
            return Ok(params);
        }
        let p = self.pos;
        let first = match self.parse_param() {
            Ok(x) => x,
            Err(e) => {
                return Err(e);
            },
        };
        let ghost e1 = self.pos as int;
        let ghost x = first@;
        params.push(first);
        proof {
            assert(params@.drop_last() =~= Seq::<Param>::empty());
            assert(params_view(Seq::<Param>::empty()) =~= Seq::<ParamView>::empty());
            assert(params_view(params@) =~= seq![x]);
            lemma_scan(s, e1, blank());
        }
        self.skip_ws();
        let ghost after_first = self.pos as int;
        while self.peek() == Some(',')
            invariant
                self.input == old(self).input,
                s == self.input@,
                p < after_first <= self.pos <= s.len(),
                p == skip_blank(s, 0),
                p < s.len(),
                sp_param(s, p as int) == Ok::<_, Seq<char>>((x, e1)),
                p < e1 <= s.len(),
                after_first == skip_blank(s, e1),
                sp_more(s, self.pos as int, params_view(params@)) == sp_more(s, after_first, seq![x]),
            decreases s.len() - self.pos,
        {
            self.advance();
            let y = match self.parse_param() {
                Ok(y) => y,
                Err(e) => {
                    return Err(e);
                },
            };
            let ghost before = params@;
            let ghost e2 = self.pos as int;
            params.push(y);
            proof {
                assert(params@.drop_last() =~= before);
                lemma_scan(s, e2, blank());
            }
            self.skip_ws();
        }
        Ok(params)
    }
}

/// The result of `str::to_uppercase` on the text `s` (the Unicode upper-case
/// mapping, which depends on the text alone).
pub uninterp spec fn uppercase_of(s: Seq<char>) -> Seq<char>;

/// Every character of `s` is ASCII.
pub open spec fn is_ascii_text(s: Seq<char>) -> bool {
    forall|i: int| 0 <= i < s.len() ==> (#[trigger] s[i] as u32) < 128
}

/// `c` with an ASCII lower-case letter replaced by its upper-case letter.
pub open spec fn ascii_upper(c: char) -> char {
    if 97 <= c as u32 <= 122 {
        ((c as u32) - 32) as char
    } else {
        c
    }
}

/// `str::to_uppercase`, on text held as characters. The claim is that the
/// result is `uppercase_of` the argument and, for ASCII text, as documented,
/// that `a`..`z` become `A`..`Z` and every other character stays.
#[verifier::external_body]
fn to_uppercase(s: &Vec<char>) -> (res: Vec<char>)
    ensures
        res@ == uppercase_of(s@),
        is_ascii_text(s@) ==> res@ == Seq::new(s@.len(), |i: int| ascii_upper(s@[i])),
{
    let text: String = s.iter().collect();
    text.to_uppercase().chars().collect()
}

pub open spec fn semicolon() -> spec_fn(char) -> bool {
    |c: char| c == ';'
}

pub open spec fn hash_sign() -> spec_fn(char) -> bool {
    |c: char| c == '#'
}

/// The index of the `)` that closes a parenthesis opened before `i`, when
/// `open` more parentheses were opened since; `s.len()` when it is not closed.
pub open spec fn closing_paren(s: Seq<char>, i: int, open: nat) -> int
    decreases s.len() - i,
{
    if !(0 <= i < s.len()) {
        s.len() as int
    } else if s[i] == '(' {
        closing_paren(s, i + 1, open + 1)
    } else if s[i] == ')' {
        if open == 0 {
            i
        } else {
            closing_paren(s, i + 1, (open - 1) as nat)
        }
    } else {
        closing_paren(s, i + 1, open)
    }
}

/// A statement without surrounding white space and trailing `;`s.
pub open spec fn stmt_line(stmt: Seq<char>) -> Seq<char> {
    let t = trim(stmt);
    t.subrange(0, scan_back(t, 0, t.len() as int, semicolon()))
}

/// What follows the `=` of a statement, trimmed.
pub open spec fn stmt_rest(stmt: Seq<char>) -> Seq<char> {
    let line = stmt_line(stmt);
    trim(line.subrange(find_from(line, 0, '=') + 1, line.len() as int))
}

/// The type name of a statement, as written.
pub open spec fn stmt_kind_text(stmt: Seq<char>) -> Seq<char> {
    let rest = stmt_rest(stmt);
    trim(rest.subrange(0, find_from(rest, 0, '(')))
}

/// What a statement `#id = TYPE(params);` holds: the id, the type name in
/// upper case, and the parameters; the error message when it is malformed.
pub open spec fn entity_line(stmt: Seq<char>) -> Result<(u32, Seq<char>, Seq<ParamView>), Seq<char>> {
    let line = stmt_line(stmt);
    let eq = find_from(line, 0, '=');
    if eq >= line.len() {
        Err("no '=' in '"@ + line + "'"@)
    } else {
        let id_text = trim(line.subrange(0, eq));
        match parse_u32(id_text.subrange(scan(id_text, 0, hash_sign()), id_text.len() as int)) {
            None => Err("bad entity id"@),
            Some(id) => {
                let rest = stmt_rest(stmt);
                let paren = find_from(rest, 0, '(');
                if paren >= rest.len() {
                    Err("no '(' in entity"@)
                } else {
                    let kind = uppercase_of(stmt_kind_text(stmt));
                    let inner = rest.subrange(paren + 1, rest.len() as int);
                    match sp_param_list(inner.subrange(0, closing_paren(inner, 0, 0))) {
                        Ok((params, _)) => Ok((id, kind, params)),
                        Err(msg) => Err(msg),
                    }
                }
            },
        }
    }
}

/// Finds the `)` that closes the parenthesis opened just before `s`.
fn matching_paren(s: &Vec<char>) -> (res: usize)
    ensures
        res == closing_paren(s@, 0, 0),
        res <= s.len(),
{
    let mut open: usize = 0;
    let mut i: usize = 0;
    while i < s.len()
        invariant
            i <= s.len(),
            open <= i,
            closing_paren(s@, i as int, open as nat) == closing_paren(s@, 0, 0),
        decreases s.len() - i,
    {
        if s[i] == '(' {
            open = open + 1;
        } else if s[i] == ')' {
            if open == 0 {
                return i;
            }
            open = open - 1;
        }
        i = i + 1;
    }
    i
}

/// Reads a statement `#id = TYPE(params);`: its id, its type name in upper
/// case, and its parameters.
pub fn parse_entity_line(stmt: &Vec<char>) -> (res: Result<(u32, Vec<char>, Vec<Param>), StepError>)
    ensures
        match res {
            Ok((id, kind, params)) => {
                &&& entity_line(stmt@) == Ok::<_, Seq<char>>((id, kind@, params_view(params@)))
                &&& is_ascii_text(stmt_kind_text(stmt@)) ==> kind@ == Seq::new(
                    stmt_kind_text(stmt@).len(),
                    |i: int| ascii_upper(stmt_kind_text(stmt@)[i]),
                )
            },
            Err(e) => e matches StepError::Parse(text) && entity_line(stmt@) == Err::<
                (u32, Seq<char>, Seq<ParamView>),
                Seq<char>,
            >(text@),
        },
{
    let t = trim_chars(stmt);
    let mut end = t.len();
    while end > 0 && t[end - 1] == ';'
        invariant
            end <= t@.len(),
            scan_back(t@, 0, end as int, semicolon()) == scan_back(
                t@,
                0,
                t@.len() as int,
                semicolon(),
            ),
        decreases end,
    {
        end = end - 1;
    }
    let line = sub_chars(&t, 0, end);
    let eq = find_char(&line, 0, '=');
    proof {
        lemma_scan(line@, 0, crate::text::other_than('='));
    }
    if eq >= line.len() {
        let mut quoted = sub_chars(&line, 0, line.len());
        quoted.push('\'');
        assert(quoted@ == line@ + "'"@) by {
            reveal_strlit("'");
            assert(quoted@ =~= line@ + "'"@);
        }
        assert("no '=' in '"@ + quoted@ =~= "no '=' in '"@ + line@ + "'"@);
        return Err(parse_error_with("no '=' in '", &quoted));
    }
    let id_text = trim_chars(&sub_chars(&line, 0, eq));
    let mut h: usize = 0;
    while h < id_text.len() && id_text[h] == '#'
        invariant
            h <= id_text@.len(),
            scan(id_text@, h as int, hash_sign()) == scan(id_text@, 0, hash_sign()),
        decreases id_text@.len() - h,
    {
        h = h + 1;
    }
    let digits = sub_chars(&id_text, h, id_text.len());
    let id = match parse_u32_chars(&digits) {
        Some(v) => v,
        None => {
            return Err(parse_error("bad entity id"));
        },
    };
    let rest = trim_chars(&sub_chars(&line, eq + 1, line.len()));
    let paren = find_char(&rest, 0, '(');
    proof {
        lemma_scan(rest@, 0, crate::text::other_than('('));
    }
    if paren >= rest.len() {
        return Err(parse_error("no '(' in entity"));
    }
    let kind = to_uppercase(&trim_chars(&sub_chars(&rest, 0, paren)));
    let inner = sub_chars(&rest, paren + 1, rest.len());
    let close = matching_paren(&inner);
    let body = sub_chars(&inner, 0, close);
    let mut parser = Parser::new(&body);
    match parser.parse_param_list() {
        Ok(params) => Ok((id, kind, params)),
        Err(e) => Err(e),
    }
}

/// An entity instance: `#id = KIND(params);`.
#[derive(Debug)]
pub struct Entity {
    pub id: u32,
    pub kind: Vec<char>,
    pub params: Vec<Param>,
}

/// What an `Entity` holds.
pub struct EntityView {
    pub id: u32,
    pub kind: Seq<char>,
    pub params: Seq<ParamView>,
}

impl View for Entity {
    type V = EntityView;

    open spec fn view(&self) -> EntityView {
        EntityView { id: self.id, kind: self.kind@, params: params_view(self.params@) }
    }
}

/// The instances of a file, one per id, in ascending order of id.
#[derive(Debug)]
pub struct EntityMap {
    pub entries: Vec<Entity>,
}

pub open spec fn entries_view(s: Seq<Entity>) -> Seq<EntityView> {
    Seq::new(s.len(), |i: int| s[i]@)
}

/// Each id occurs once, in ascending order.
pub open spec fn ids_ascending(s: Seq<EntityView>) -> bool {
    forall|i: int, j: int| 0 <= i < j < s.len() ==> s[i].id < s[j].id
}

/// The number of entries whose id is below `x`.
pub open spec fn below(s: Seq<EntityView>, x: u32) -> int
    decreases s.len(),
{
    if s.len() == 0 {
        0
    } else if s.last().id < x {
        below(s.drop_last(), x) + 1
    } else {
        below(s.drop_last(), x)
    }
}

/// `s` with `e` stored under its id: the entry with that id replaced, or `e`
/// put in its place in the order.
pub open spec fn insert_entity(s: Seq<EntityView>, e: EntityView) -> Seq<EntityView> {
    let p = below(s, e.id);
    if p < s.len() && s[p].id == e.id {
        s.update(p, e)
    } else {
        s.insert(p, e)
    }
}

/// The entry with id `x`, if any.
pub open spec fn lookup(s: Seq<EntityView>, x: u32) -> Option<EntityView> {
    if exists|i: int| 0 <= i < s.len() && s[i].id == x {
        Some(s[choose|i: int| 0 <= i < s.len() && s[i].id == x])
    } else {
        None
    }
}

proof fn lemma_below_partition(s: Seq<EntityView>, x: u32, p: int)
    requires
        ids_ascending(s),
        0 <= p <= s.len(),
        forall|i: int| 0 <= i < p ==> s[i].id < x,
        forall|i: int| p <= i < s.len() ==> s[i].id >= x,
    ensures
        below(s, x) == p,
    decreases s.len(),
{
    if s.len() > 0 {
        if p == s.len() {
            lemma_below_partition(s.drop_last(), x, p - 1);
        } else {
            lemma_below_partition(s.drop_last(), x, p);
        }
    }
}

pub proof fn lemma_lookup_at(s: Seq<EntityView>, i: int)
    requires
        ids_ascending(s),
        0 <= i < s.len(),
    ensures
        lookup(s, s[i].id) == Some(s[i]),
{
    let j = choose|j: int| 0 <= j < s.len() && s[j].id == s[i].id;
    assert(j == i);
}

/// Storing `e` keeps the ids ascending; afterwards `e` is found under its id
/// and every other id finds what it found before.
pub proof fn lemma_insert_entity(s: Seq<EntityView>, e: EntityView)
    requires
        ids_ascending(s),
    ensures
        ids_ascending(insert_entity(s, e)),
        lookup(insert_entity(s, e), e.id) == Some(e),
        forall|x: u32| x != e.id ==> lookup(insert_entity(s, e), x) == lookup(s, x),
{
    lemma_partition_exists(s, e.id);
    let p = choose|p: int| is_partition(s, e.id, p);
    lemma_below_partition(s, e.id, p);
    let t = insert_entity(s, e);
    if p < s.len() && s[p].id == e.id {
        assert(t == s.update(p, e));
        assert(ids_ascending(t));
        lemma_lookup_at(t, p);
        assert forall|x: u32| x != e.id implies lookup(t, x) == lookup(s, x) by {
            if exists|i: int| 0 <= i < s.len() && s[i].id == x {
                let i = choose|i: int| 0 <= i < s.len() && s[i].id == x;
                lemma_lookup_at(s, i);
                lemma_lookup_at(t, i);
            } else {
                assert(!exists|i: int| 0 <= i < t.len() && t[i].id == x);
            }
        }
    } else {
        assert(t == s.insert(p, e));
        assert forall|i: int, j: int| 0 <= i < j < t.len() implies t[i].id < t[j].id by {
            if j < p {
            } else if j == p {
            } else if i < p {
                assert(s[i].id < e.id);
                assert(s[j - 1].id >= e.id);
                if s[j - 1].id == e.id {
                    assert(s[p].id <= s[j - 1].id);
                }
            } else if i == p {
                assert(s[j - 1].id >= e.id);
                if s[j - 1].id == e.id {
                    assert(s[p].id <= s[j - 1].id);
                    assert(s[p].id >= e.id);
                }
            } else {
            }
        }
        lemma_lookup_at(t, p);
        assert forall|x: u32| x != e.id implies lookup(t, x) == lookup(s, x) by {
            if exists|i: int| 0 <= i < s.len() && s[i].id == x {
                let i = choose|i: int| 0 <= i < s.len() && s[i].id == x;
                lemma_lookup_at(s, i);
                if i < p {
                    assert(t[i] == s[i]);
                    lemma_lookup_at(t, i);
                } else {
                    assert(t[i + 1] == s[i]);
                    lemma_lookup_at(t, i + 1);
                }
            } else {
                assert forall|i: int| 0 <= i < t.len() implies t[i].id != x by {
                    if i < p {
                        assert(t[i] == s[i]);
                    } else if i > p {
                        assert(t[i] == s[i - 1]);
                    }
                }
            }
        }
    }
}

/// The entries before `p` have ids below `x`, the others do not.
pub open spec fn is_partition(s: Seq<EntityView>, x: u32, p: int) -> bool {
    &&& 0 <= p <= s.len()
    &&& forall|i: int| 0 <= i < p ==> s[i].id < x
    &&& forall|i: int| p <= i < s.len() ==> s[i].id >= x
}

proof fn lemma_partition_exists(s: Seq<EntityView>, x: u32)
    requires
        ids_ascending(s),
    ensures
        exists|p: int| is_partition(s, x, p),
    decreases s.len(),
{
    if s.len() == 0 {
        assert(is_partition(s, x, 0));
    } else {
        lemma_partition_exists(s.drop_last(), x);
        let p = choose|p: int| is_partition(s.drop_last(), x, p);
        if p == s.len() - 1 && s.last().id < x {
            assert(is_partition(s, x, s.len() as int));
        } else {
            if p < s.len() - 1 {
                assert(s.drop_last()[p] == s[p]);
                assert(s[p].id < s[s.len() - 1].id);
            }
            assert forall|i: int| 0 <= i < p implies s[i].id < x by {
                assert(s.drop_last()[i] == s[i]);
            }
            assert forall|i: int| p <= i < s.len() implies s[i].id >= x by {
                if i < s.len() - 1 {
                    assert(s.drop_last()[i] == s[i]);
                }
            }
            assert(is_partition(s, x, p));
        }
    }
}

impl View for EntityMap {
    type V = Seq<EntityView>;

    open spec fn view(&self) -> Seq<EntityView> {
        entries_view(self.entries@)
    }
}

impl EntityMap {
    /// The ids ascend, each once.
    pub open spec fn wf(&self) -> bool {
        ids_ascending(self@)
    }

    pub fn new() -> (res: Self)
        ensures
            res.wf(),
            res@ == Seq::<EntityView>::empty(),
    {
        let res = EntityMap { entries: Vec::new() };
        assert(res@ =~= Seq::<EntityView>::empty());
        res
    }

    pub fn len(&self) -> (res: usize)
        ensures
            res == self@.len(),
    {
        self.entries.len()
    }

    /// The number of entries whose id is below `id`.
    pub fn lower_bound(&self, id: u32) -> (res: usize)
        requires
            self.wf(),
        ensures
            res <= self@.len(),
            forall|i: int| 0 <= i < res ==> self@[i].id < id,
            forall|i: int| res <= i < self@.len() ==> self@[i].id >= id,
    {
        let mut lo: usize = 0;
        let mut hi: usize = self.entries.len();
        while lo < hi
            invariant
                lo <= hi <= self@.len(),
                self.wf(),
                forall|i: int| 0 <= i < lo ==> self@[i].id < id,
                forall|i: int| hi <= i < self@.len() ==> self@[i].id >= id,
            decreases hi - lo,
        {
            let mid = lo + (hi - lo) / 2;
            assert(self@[mid as int].id == self.entries@[mid as int].id);
            if self.entries[mid].id < id {
                lo = mid + 1;
            } else {
                hi = mid;
            }
        }
        lo
    }

    /// The index of the entry with id `id`, if there is one.
    pub fn find(&self, id: u32) -> (res: Option<usize>)
        requires
            self.wf(),
        ensures
            match res {
                Some(i) => i < self@.len() && self@[i as int].id == id && lookup(self@, id) == Some(
                    self@[i as int],
                ),
                None => lookup(self@, id) is None,
            },
    {
        let p = self.lower_bound(id);
        if p < self.entries.len() && self.entries[p].id == id {
            proof {
                assert(self@[p as int].id == id);
                lemma_lookup_at(self@, p as int);
            }
            Some(p)
        } else {
            proof {
                assert forall|i: int| 0 <= i < self@.len() implies self@[i].id != id by {
                    if i > p {
                        assert(self@[p as int].id < self@[i].id);
                    }
                }
            }
            None
        }
    }

    /// Stores `e` under its id, replacing the entry that had it.
    pub fn insert(&mut self, e: Entity)
        requires
            old(self).wf(),
        ensures
            final(self).wf(),
            final(self)@ == insert_entity(old(self)@, e@),
    {
        let ghost ev = e@;
        let p = self.lower_bound(e.id);
        proof {
            lemma_below_partition(self@, e.id, p as int);
            lemma_insert_entity(self@, ev);
        }
        let ghost before = self.entries@;
        if p < self.entries.len() && self.entries[p].id == e.id {
            assert(self@[p as int].id == e.id);
            self.entries.set(p, e);
            assert(self@ =~= entries_view(before).update(p as int, ev));
        } else {
            self.entries.insert(p, e);
            assert(self@ =~= entries_view(before).insert(p as int, ev));
        }
    }
}

/// `l` without one trailing carriage return.
pub open spec fn strip_cr(l: Seq<char>) -> Seq<char> {
    if l.len() > 0 && l.last() == '\r' {
        l.drop_last()
    } else {
        l
    }
}

/// The line that starts at `i`, as `str::lines` gives it.
pub open spec fn line_at(s: Seq<char>, i: int) -> Seq<char> {
    let e = find_from(s, i, '\n');
    if e < s.len() {
        strip_cr(s.subrange(i, e))
    } else {
        s.subrange(i, s.len() as int)
    }
}

/// Where the line after the one at `i` starts.
pub open spec fn next_line(s: Seq<char>, i: int) -> int {
    let e = find_from(s, i, '\n');
    if e < s.len() {
        e + 1
    } else {
        s.len() as int
    }
}

/// Where a `/*` comment starts at or after `i`, or `s.len()`.
pub open spec fn comment_start(s: Seq<char>, i: int) -> int
    decreases s.len() - i,
{
    if !(0 <= i && i + 1 < s.len()) {
        s.len() as int
    } else if s[i] == '/' && s[i + 1] == '*' {
        i
    } else {
        comment_start(s, i + 1)
    }
}

/// A line without its comment, trimmed.
pub open spec fn clean_line(raw: Seq<char>) -> Seq<char> {
    trim(raw.subrange(0, comment_start(raw, 0)))
}

proof fn lemma_comment_start(s: Seq<char>, i: int)
    requires
        0 <= i <= s.len(),
    ensures
        i <= comment_start(s, i) <= s.len(),
    decreases s.len() - i,
{
    if 0 <= i && i + 1 < s.len() && !(s[i] == '/' && s[i + 1] == '*') {
        lemma_comment_start(s, i + 1);
    }
}

/// A line is read without its `/*` comment and without the white space
/// around what remains: the cleaned line is the part before the comment with
/// its leading and trailing white space (what `str::trim` removes) cut off,
/// and nothing more.
pub proof fn law_clean_line(raw: Seq<char>)
    ensures
        ({
            let pre = raw.subrange(0, comment_start(raw, 0));
            let l = clean_line(raw);
            exists|a: int, b: int|
                #![trigger pre.subrange(a, b)]
                0 <= a <= b <= pre.len() && l == pre.subrange(a, b) && (forall|k: int|
                    0 <= k < a ==> is_white_space(#[trigger] pre[k])) && (forall|k: int|
                    b <= k < pre.len() ==> is_white_space(#[trigger] pre[k])) && (a < b
                    ==> !is_white_space(pre[a]) && !is_white_space(pre[b - 1]))
        }),
{
    lemma_comment_start(raw, 0);
    let pre = raw.subrange(0, comment_start(raw, 0));
    let a = scan(pre, 0, white());
    lemma_scan(pre, 0, white());
    let b = scan_back(pre, a, pre.len() as int, white());
    lemma_scan_back(pre, a, pre.len() as int, white());
    assert(clean_line(raw) == pre.subrange(a, b));
    if a < b {
        assert(a < pre.len());
        assert(!white()(pre[a]));
    }
}

/// Inside the DATA section, a line that completes a statement is read as an
/// instance exactly when the whole statement starts with `#`: the instance
/// that `entity_line` reads from it is then found by its id, the others are
/// as before, and the statement is done; a statement that does not start
/// with `#` leaves the instances as they were.
pub proof fn law_completed_statement(st: DataState, line: Seq<char>)
    requires
        st.in_data,
        ids_ascending(st.entities),
        line.len() > 0,
        line.last() == ';',
        line != "DATA;"@,
        line != "ENDSEC;"@,
    ensures
        ({
            let stmt = st.stmt + line;
            if stmt[0] == '#' {
                match entity_line(stmt) {
                    Ok((id, kind, params)) => data_step(st, line) matches Ok(next) && next.in_data
                        && next.stmt.len() == 0 && lookup(next.entities, id) == Some(
                        EntityView { id, kind, params },
                    ) && forall|x: u32| x != id ==> lookup(next.entities, x) == lookup(st.entities, x),
                    Err(msg) => data_step(st, line) == Err::<DataState, Seq<char>>(msg),
                }
            } else {
                data_step(st, line) matches Ok(next) && next.in_data && next.stmt.len() == 0
                    && next.entities == st.entities
            }
        }),
{
    let stmt = st.stmt + line;
    assert(stmt.last() == line.last());
    if stmt[0] == '#' {
        match entity_line(stmt) {
            Ok((id, kind, params)) => {
                lemma_insert_entity(st.entities, EntityView { id, kind, params });
            },
            Err(_) => {},
        }
    }
}

/// A statement that runs over two lines is read as the same statement on
/// one line, the two parts joined by a blank: whether it is an instance
/// depends on the first character of the whole statement, and the
/// instance read is the same.
pub proof fn law_statement_over_two_lines(st: DataState, l1: Seq<char>, l2: Seq<char>)
    requires
        st.in_data,
        l1.len() > 0,
        l2.len() > 0,
        l1.last() != ';',
        l1 != "DATA;"@,
        l1 != "ENDSEC;"@,
        l2 != "DATA;"@,
        l2 != "ENDSEC;"@,
    ensures
        match data_step(st, l1) {
            Ok(st1) => data_step(st1, l2) == data_step(st, l1 + seq![' '] + l2),
            Err(_) => false,
        },
{
    reveal_strlit("DATA;");
    reveal_strlit("ENDSEC;");
    let one = l1 + seq![' '] + l2;
    assert(one[l1.len() as int] == ' ');
    assert(one != "DATA;"@) by {
        if one == "DATA;"@ {
            assert(one.len() == 5);
            assert("DATA;"@[l1.len() as int] != ' ');
        }
    }
    assert(one != "ENDSEC;"@) by {
        if one == "ENDSEC;"@ {
            assert(one.len() == 7);
            assert("ENDSEC;"@[l1.len() as int] != ' ');
        }
    }
    let st1 = DataState { in_data: st.in_data, stmt: (st.stmt + l1).push(' '), entities: st.entities };
    assert(data_step(st, l1) == Ok::<DataState, Seq<char>>(st1));
    assert(st1.stmt + l2 =~= st.stmt + one);
}

/// Where reading the file stands between two lines.
pub struct DataState {
    pub in_data: bool,
    pub stmt: Seq<char>,
    pub entities: Seq<EntityView>,
}

/// One line of the file, already cleaned. `DATA;` opens the DATA section and
/// `ENDSEC;` closes it; inside it, lines are joined by a space into statements
/// that end with `;`, and each statement that starts with `#` is an instance.
pub open spec fn data_step(st: DataState, line: Seq<char>) -> Result<DataState, Seq<char>> {
    if line == "DATA;"@ {
        Ok(DataState { in_data: true, stmt: st.stmt, entities: st.entities })
    } else if line == "ENDSEC;"@ {
        Ok(DataState { in_data: false, stmt: st.stmt, entities: st.entities })
    } else if !st.in_data || line.len() == 0 {
        Ok(st)
    } else {
        let stmt = st.stmt + line;
        if stmt.last() == ';' {
            if stmt[0] == '#' {
                match entity_line(stmt) {
                    Ok((id, kind, params)) => Ok(
                        DataState {
                            in_data: st.in_data,
                            stmt: Seq::empty(),
                            entities: insert_entity(
                                st.entities,
                                EntityView { id, kind, params },
                            ),
                        },
                    ),
                    Err(msg) => Err(msg),
                }
            } else {
                Ok(DataState { in_data: st.in_data, stmt: Seq::empty(), entities: st.entities })
            }
        } else {
            Ok(DataState { in_data: st.in_data, stmt: stmt.push(' '), entities: st.entities })
        }
    }
}

/// Reads the lines from index `i` on, from state `st`; the error message of
/// the first malformed instance.
pub open spec fn data_from(s: Seq<char>, i: int, st: DataState) -> Result<DataState, Seq<char>>
    decreases s.len() - i,
{
    if !(0 <= i < s.len()) {
        Ok(st)
    } else {
        proof {
            lemma_scan(s, i, crate::text::other_than('\n'));
        }
        match data_step(st, clean_line(line_at(s, i))) {
            Ok(next) => data_from(s, next_line(s, i), next),
            Err(msg) => Err(msg),
        }
    }
}

/// The instances of the DATA section of the file text `s`, or the error
/// message of its first malformed instance.
pub open spec fn step_entities(s: Seq<char>) -> Result<Seq<EntityView>, Seq<char>> {
    match data_from(
        s,
        0,
        DataState { in_data: false, stmt: Seq::empty(), entities: Seq::empty() },
    ) {
        Ok(st) => Ok(st.entities),
        Err(msg) => Err(msg),
    }
}

/// `line` is the text `lit`.
pub(crate) fn is_text(line: &Vec<char>, lit: &str) -> (res: bool)
    ensures
        res == (line@ == lit@),
{
    let w = chars_of(lit);
    if line.len() != w.len() {
        return false;
    }
    let mut i: usize = 0;
    while i < w.len()
        invariant
            i <= w@.len() == line@.len(),
            w@ == lit@,
            forall|k: int| 0 <= k < i ==> line@[k] == w@[k],
        decreases w@.len() - i,
    {
        if line[i] != w[i] {
            return false;
        }
        i = i + 1;
    }
    assert(line@ =~= w@);
    true
}

/// A raw line without its comment, trimmed.
fn clean(raw: &Vec<char>) -> (res: Vec<char>)
    ensures
        res@ == clean_line(raw@),
{
    let mut k: usize = 0;
    while k < raw.len() && k + 1 < raw.len() && !(raw[k] == '/' && raw[k + 1] == '*')
        invariant
            k <= raw@.len(),
            comment_start(raw@, k as int) == comment_start(raw@, 0),
        decreases raw@.len() - k,
    {
        k = k + 1;
    }
    let c = if k < raw.len() && k + 1 < raw.len() {
        k
    } else {
        raw.len()
    };
    trim_chars(&sub_chars(raw, 0, c))
}

/// Reads the instances of the DATA section of a STEP file: statements that
/// start with `#`, by id; a later instance with the same id replaces an
/// earlier one. Comments `/* .. */` are cut at the end of a line.
pub fn parse_step_data(content: &str) -> (res: Result<EntityMap, StepError>)
    ensures
        match res {
            Ok(m) => m.wf() && step_entities(content@) == Ok::<_, Seq<char>>(m@),
            Err(e) => e matches StepError::Parse(t) && step_entities(content@) == Err::<
                Seq<EntityView>,
                Seq<char>,
            >(t@),
        },
{
    let s = chars_of(content);
    let mut entities = EntityMap::new();
    let mut in_data = false;
    let mut stmt: Vec<char> = Vec::new();
    let mut i: usize = 0;
    let ghost init = DataState { in_data: false, stmt: Seq::empty(), entities: Seq::empty() };
    while i < s.len()
        invariant
            i <= s@.len(),
            s@ == content@,
            init == (DataState { in_data: false, stmt: Seq::empty(), entities: Seq::empty() }),
            entities.wf(),
            data_from(s@, i as int, DataState { in_data, stmt: stmt@, entities: entities@ })
                == data_from(s@, 0, init),
        decreases s@.len() - i,
    {
        let ghost st = DataState { in_data, stmt: stmt@, entities: entities@ };
        let e = find_char(&s, i, '\n');
        proof {
            lemma_scan(s@, i as int, crate::text::other_than('\n'));
        }
        let mut raw = sub_chars(&s, i, if e < s.len() {
            e
        } else {
            s.len()
        });
        if e < s.len() && raw.len() > 0 && raw[raw.len() - 1] == '\r' {
            raw.pop();
            proof {
                assert(raw@ =~= strip_cr(s@.subrange(i as int, e as int)));
            }
        }
        assert(raw@ == line_at(s@, i as int));
        let next = if e < s.len() {
            e + 1
        } else {
            s.len()
        };
        let line = clean(&raw);
        if is_text(&line, "DATA;") {
            in_data = true;
        } else if is_text(&line, "ENDSEC;") {
            in_data = false;
        } else if in_data && line.len() > 0 {
            let ghost joined = stmt@ + line@;
            let mut k: usize = 0;
            let ghost stmt0 = stmt@;
            while k < line.len()
                invariant
                    k <= line@.len(),
                    stmt@ == stmt0 + line@.subrange(0, k as int),
                decreases line@.len() - k,
            {
                stmt.push(line[k]);
                k = k + 1;
            }
            assert(stmt@ =~= joined);
            if stmt[stmt.len() - 1] == ';' {
                if stmt[0] == '#' {
                    match parse_entity_line(&stmt) {
                        Ok((id, kind, params)) => {
                            entities.insert(Entity { id, kind, params });
                        },
                        Err(err) => {
                            assert(line@ == clean_line(line_at(s@, i as int)));
                            assert(data_step(st, line@) is Err);
                            assert(data_from(s@, i as int, st) is Err);
                            assert(data_from(s@, 0, init) is Err);
                            assert(step_entities(content@) is Err);
                            return Err(err);
                        },
                    }
                }
                stmt.clear();
            } else {
                stmt.push(' ');
            }
        }
        i = next;
    }
    Ok(entities)
}

} // verus!
