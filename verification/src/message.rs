//! The command grammar: a keyword, matched without regard to ASCII case,
//! followed by its arguments.  `parse` turns a line of text into a
//! `Message`, `render` writes a message back in its canonical lowercase
//! form, and the two are proved inverse on canonical messages.

use vstd::prelude::*;

use crate::text::{
    chars_of, dec_digits, digits_value, is_digit, is_space, join_from, join_tokens,
    lemma_dec_digits, lemma_digits_value_bounds, lemma_tokens_concat_word, lemma_tokens_of_join,
    lemma_tokens_space_prefix, lemma_tokens_wordlike, number_token, parse_u64_range,
    parse_uint_spec, tokenize, tokens_of, trim_chars, trim_spec, fold_char, fold_char_spec,
    fold_seq,
};

verus! {

use vstd::string::StringExecFns;

/// A command text that could not be understood, with the reason or the
/// offending text itself.
#[derive(Debug)]
pub struct InvalidMessageError {
    message: String,
}

impl View for InvalidMessageError {
    type V = Seq<char>;

    closed spec fn view(&self) -> Seq<char> {
        self.message@
    }
}

impl InvalidMessageError {
    /// The reason the text was refused.
    pub fn message(&self) -> (m: &String)
        ensures
            m@ == self@,
    {
        &self.message
    }
}

pub type MessageResult = Result<Message, InvalidMessageError>;

/// One request of the protocol.
#[derive(Debug, PartialEq, Eq, Clone)]
pub enum Message {
    Exit,
    Login(String),
    Balance,
    Deposit(u32),
    Start(u32),
    Hit,
    Stand,
}

/// The mathematical form of a request: the login name as a character
/// sequence, the amounts as unbounded integers.
pub enum MessageModel {
    Exit,
    Login(Seq<char>),
    Balance,
    Deposit(int),
    Start(int),
    Hit,
    Stand,
}

impl View for Message {
    type V = MessageModel;

    open spec fn view(&self) -> MessageModel {
        match self {
            Message::Exit => MessageModel::Exit,
            Message::Login(name) => MessageModel::Login(name@),
            Message::Balance => MessageModel::Balance,
            Message::Deposit(a) => MessageModel::Deposit(*a as int),
            Message::Start(a) => MessageModel::Start(*a as int),
            Message::Hit => MessageModel::Hit,
            Message::Stand => MessageModel::Stand,
        }
    }
}

/// What parsing an amount argument for `deposit` or `start` yields: the
/// second word read as a positive 32-bit number, or the exact complaint.
pub open spec fn parse_amount_spec(toks: Seq<Seq<char>>, zero_complaint: Seq<char>) -> Result<
    int,
    Seq<char>,
> {
    if toks.len() < 2 {
        Result::Err("Amount missing"@)
    } else {
        match parse_uint_spec(toks[1], u32::MAX as int) {
            Option::None => Result::Err("Unable to parse input to integer"@),
            Option::Some(n) => if n == 0 {
                Result::Err(zero_complaint)
            } else {
                Result::Ok(n)
            },
        }
    }
}

/// What a line of text parses to: the message, or the exact error text.
/// The keyword is the first word, case-folded; `login` takes the remaining
/// words joined by single spaces; `deposit` and `start` read their second
/// word as a positive number.
pub open spec fn parse_spec(s: Seq<char>) -> Result<MessageModel, Seq<char>> {
    let toks = tokens_of(s);
    if toks.len() == 0 {
        Result::Err("Keyword missing"@)
    } else {
        let kw = fold_seq(toks[0]);
        if kw == "exit"@ {
            Result::Ok(MessageModel::Exit)
        } else if kw == "login"@ {
            Result::Ok(MessageModel::Login(join_tokens(toks.drop_first())))
        } else if kw == "balance"@ {
            Result::Ok(MessageModel::Balance)
        } else if kw == "deposit"@ {
            match parse_amount_spec(toks, "Deposit amount has to be a positive number"@) {
                Result::Ok(n) => Result::Ok(MessageModel::Deposit(n)),
                Result::Err(e) => Result::Err(e),
            }
        } else if kw == "start"@ {
            match parse_amount_spec(toks, "Bet amount has to be a positive number"@) {
                Result::Ok(n) => Result::Ok(MessageModel::Start(n)),
                Result::Err(e) => Result::Err(e),
            }
        } else if kw == "hit"@ {
            Result::Ok(MessageModel::Hit)
        } else if kw == "stand"@ {
            Result::Ok(MessageModel::Stand)
        } else {
            Result::Err(trim_spec(s))
        }
    }
}

/// Compares a word, case-folded, against a lowercase keyword.
fn keyword_is(tok: &Vec<char>, kw: &str) -> (r: bool)
    ensures
        r == (fold_seq(tok@) == kw@),
{
    let kchars = chars_of(kw);
    if tok.len() != kchars.len() {
        assert(fold_seq(tok@).len() == tok@.len());
        return false;
    }
    let n = tok.len();
    let mut i: usize = 0;
    while i < n
        invariant
            i <= n,
            n == tok@.len() == kchars@.len(),
            kchars@ == kw@,
            forall|m: int| 0 <= m < i as int ==> fold_char_spec(tok@[m]) == kw@[m],
        decreases n - i,
    {
        if fold_char(tok[i]) != kchars[i] {
            assert(fold_seq(tok@)[i as int] != kw@[i as int]);
            return false;
        }
        i = i + 1;
    }
    assert(fold_seq(tok@) =~= kw@);
    true
}

/// Wraps a complaint as the error value.
fn refuse(text: String) -> (e: InvalidMessageError)
    ensures
        e@ == text@,
{
    InvalidMessageError { message: text }
}

/// Reads the amount argument of `deposit` or `start`.
fn parse_amount(toks: &Vec<Vec<char>>, zero_complaint: &str) -> (r: Result<
    u32,
    InvalidMessageError,
>)
    ensures
        match r {
            Result::Ok(n) => parse_amount_spec(toks.deep_view(), zero_complaint@) == Result::<
                int,
                Seq<char>,
            >::Ok(n as int),
            Result::Err(e) => parse_amount_spec(toks.deep_view(), zero_complaint@) == Result::<
                int,
                Seq<char>,
            >::Err(e@),
        },
{
    if toks.len() < 2 {
        return Err(refuse("Amount missing".to_owned()));
    }
    let tok = &toks[1];
    proof {
        assert(tok@ == toks.deep_view()[1]);
        assert(tok@.subrange(0, tok@.len() as int) =~= tok@);
    }
    match parse_u64_range(tok, 0, tok.len()) {
        Option::None => Err(refuse("Unable to parse input to integer".to_owned())),
        Option::Some(n) => {
            if n > 0xffff_ffff {
                proof {
                    if parse_uint_spec(tok@, u32::MAX as int) is Some {
                        assert(parse_uint_spec(tok@, u64::MAX as int) == Option::Some(
                            parse_uint_spec(tok@, u32::MAX as int)->0,
                        ));
                    }
                }
                Err(refuse("Unable to parse input to integer".to_owned()))
            } else if n == 0 {
                Err(refuse(zero_complaint.to_owned()))
            } else {
                Ok(n as u32)
            }
        },
    }
}

impl Message {
    /// Parses one line of text, exactly as `parse_spec` describes.
    pub fn parse(s: &str) -> (r: MessageResult)
        ensures
            match r {
                Result::Ok(m) => parse_spec(s@) == Result::<MessageModel, Seq<char>>::Ok(m@),
                Result::Err(e) => parse_spec(s@) == Result::<MessageModel, Seq<char>>::Err(e@),
            },
    {
        let v = chars_of(s);
        let toks = tokenize(&v);
        if toks.len() == 0 {
            return Err(refuse("Keyword missing".to_owned()));
        }
        let kw = &toks[0];
        proof {
            assert(kw@ == toks.deep_view()[0]);
        }
        if keyword_is(kw, "exit") {
            Ok(Message::Exit)
        } else if keyword_is(kw, "login") {
            let name = join_from(&toks, 1);
            proof {
                assert(toks.deep_view().skip(1) =~= toks.deep_view().drop_first());
            }
            Ok(Message::Login(name))
        } else if keyword_is(kw, "balance") {
            Ok(Message::Balance)
        } else if keyword_is(kw, "deposit") {
            match parse_amount(&toks, "Deposit amount has to be a positive number") {
                Ok(n) => Ok(Message::Deposit(n)),
                Err(e) => Err(e),
            }
        } else if keyword_is(kw, "start") {
            match parse_amount(&toks, "Bet amount has to be a positive number") {
                Ok(n) => Ok(Message::Start(n)),
                Err(e) => Err(e),
            }
        } else if keyword_is(kw, "hit") {
            Ok(Message::Hit)
        } else if keyword_is(kw, "stand") {
            Ok(Message::Stand)
        } else {
            Err(refuse(trim_chars(&v)))
        }
    }
}

/// The canonical text of a message: the lowercase keyword, then its
/// arguments, space-separated.
pub open spec fn render_spec(m: MessageModel) -> Seq<char> {
    match m {
        MessageModel::Exit => "exit"@,
        MessageModel::Login(name) => "login "@ + name,
        MessageModel::Balance => "balance"@,
        MessageModel::Deposit(n) => "deposit "@ + crate::text::dec_digits(n as nat),
        MessageModel::Start(n) => "start "@ + crate::text::dec_digits(n as nat),
        MessageModel::Hit => "hit"@,
        MessageModel::Stand => "stand"@,
    }
}

/// A message that parsing can produce: amounts are positive 32-bit
/// numbers, and a login name carries its words joined by single spaces.
pub open spec fn is_canonical(m: MessageModel) -> bool {
    match m {
        MessageModel::Login(name) => name == join_tokens(tokens_of(name)),
        MessageModel::Deposit(n) => 1 <= n <= u32::MAX,
        MessageModel::Start(n) => 1 <= n <= u32::MAX,
        _ => true,
    }
}

impl Message {
    /// Writes the message in its canonical lowercase form.
    pub fn render(&self) -> (s: String)
        ensures
            s@ == render_spec(self@),
    {
        match self {
            Message::Exit => "exit".to_owned(),
            Message::Login(name) => {
                let mut s = "login ".to_owned();
                s.append(name.as_str());
                s
            },
            Message::Balance => "balance".to_owned(),
            Message::Deposit(a) => {
                let mut s = "deposit ".to_owned();
                let digits = crate::text::u64_to_string(*a as u64);
                s.append(digits.as_str());
                s
            },
            Message::Start(a) => {
                let mut s = "start ".to_owned();
                let digits = crate::text::u64_to_string(*a as u64);
                s.append(digits.as_str());
                s
            },
            Message::Hit => "hit".to_owned(),
            Message::Stand => "stand".to_owned(),
        }
    }
}

/// A single word is its own token list.
proof fn lemma_word_tokens(w: Seq<char>)
    requires
        w.len() >= 1,
        forall|m: int| 0 <= m < w.len() ==> !is_space(#[trigger] w[m]),
    ensures
        tokens_of(w) == seq![w],
{
    lemma_tokens_concat_word(w, Seq::empty());
    assert(w + Seq::<char>::empty() =~= w);
    assert(tokens_of(Seq::<char>::empty()) =~= Seq::<Seq<char>>::empty());
    assert(seq![w] + Seq::<Seq<char>>::empty() =~= seq![w]);
}

/// Case folding does not change text that holds no upper-case letter.
proof fn lemma_fold_lower(w: Seq<char>)
    requires
        forall|m: int| 0 <= m < w.len() ==> !('A' <= #[trigger] w[m] <= 'Z'),
    ensures
        fold_seq(w) == w,
{
    assert(fold_seq(w) =~= w);
}

/// Reveals every keyword literal, so that their characters are known.
proof fn lemma_keyword_chars()
    ensures
        "exit"@.len() == 4,
        "login"@.len() == 5,
        "login "@ == "login"@ + seq![' '],
        "balance"@.len() == 7,
        "deposit"@.len() == 7,
        "deposit "@ == "deposit"@ + seq![' '],
        "start"@.len() == 5,
        "start "@ == "start"@ + seq![' '],
        "hit"@.len() == 3,
        "stand"@.len() == 5,
        "exit"@ == seq!['e', 'x', 'i', 't'],
        "login"@ == seq!['l', 'o', 'g', 'i', 'n'],
        "balance"@ == seq!['b', 'a', 'l', 'a', 'n', 'c', 'e'],
        "deposit"@ == seq!['d', 'e', 'p', 'o', 's', 'i', 't'],
        "start"@ == seq!['s', 't', 'a', 'r', 't'],
        "hit"@ == seq!['h', 'i', 't'],
        "stand"@ == seq!['s', 't', 'a', 'n', 'd'],
{
    reveal_strlit("exit");
    reveal_strlit("login");
    reveal_strlit("login ");
    reveal_strlit("balance");
    reveal_strlit("deposit");
    reveal_strlit("deposit ");
    reveal_strlit("start");
    reveal_strlit("start ");
    reveal_strlit("hit");
    reveal_strlit("stand");
    assert("login "@ =~= "login"@ + seq![' ']);
    assert("deposit "@ =~= "deposit"@ + seq![' ']);
    assert("start "@ =~= "start"@ + seq![' ']);
    assert("exit"@ =~= seq!['e', 'x', 'i', 't']);
    assert("login"@ =~= seq!['l', 'o', 'g', 'i', 'n']);
    assert("balance"@ =~= seq!['b', 'a', 'l', 'a', 'n', 'c', 'e']);
    assert("deposit"@ =~= seq!['d', 'e', 'p', 'o', 's', 'i', 't']);
    assert("start"@ =~= seq!['s', 't', 'a', 'r', 't']);
    assert("hit"@ =~= seq!['h', 'i', 't']);
    assert("stand"@ =~= seq!['s', 't', 'a', 'n', 'd']);
}

/// The token list of a keyword followed by one argument word, and the fold
/// facts the parser's keyword match needs.
proof fn lemma_keyword_arg_tokens(kw: Seq<char>, arg: Seq<char>)
    requires
        kw.len() >= 1,
        forall|m: int| 0 <= m < kw.len() ==> !is_space(#[trigger] kw[m]),
        arg.len() >= 1,
        forall|m: int| 0 <= m < arg.len() ==> !is_space(#[trigger] arg[m]),
    ensures
        tokens_of(kw + seq![' '] + arg) == seq![kw, arg],
{
    let rest = seq![' '] + arg;
    assert(kw + seq![' '] + arg =~= kw + rest);
    assert(rest[0] == ' ');
    lemma_tokens_concat_word(kw, rest);
    lemma_tokens_space_prefix(' ', arg);
    lemma_word_tokens(arg);
    assert(seq![kw] + seq![arg] =~= seq![kw, arg]);
}

/// Decimal digits are not whitespace.
proof fn lemma_digits_not_space(d: Seq<char>)
    requires
        crate::text::all_digits(d),
    ensures
        forall|m: int| 0 <= m < d.len() ==> !is_space(#[trigger] d[m]),
        forall|m: int| 0 <= m < d.len() ==> !('A' <= #[trigger] d[m] <= 'Z'),
{
    assert forall|m: int| 0 <= m < d.len() implies !is_space(#[trigger] d[m]) && !('A' <= d[m]
        <= 'Z') by {
        assert(is_digit(d[m]));
    }
}

/// Rendering a canonical message and parsing the text gives the message
/// back.
pub proof fn lemma_render_parse(m: MessageModel)
    requires
        is_canonical(m),
    ensures
        parse_spec(render_spec(m)) == Result::<MessageModel, Seq<char>>::Ok(m),
{
    lemma_keyword_chars();
    match m {
        MessageModel::Exit => {
            lemma_word_tokens("exit"@);
            lemma_fold_lower("exit"@);
        },
        MessageModel::Balance => {
            lemma_word_tokens("balance"@);
            lemma_fold_lower("balance"@);
        },
        MessageModel::Hit => {
            lemma_word_tokens("hit"@);
            lemma_fold_lower("hit"@);
        },
        MessageModel::Stand => {
            lemma_word_tokens("stand"@);
            lemma_fold_lower("stand"@);
        },
        MessageModel::Login(name) => {
            let s = render_spec(m);
            let rest = seq![' '] + name;
            assert(s =~= "login"@ + rest);
            lemma_tokens_concat_word("login"@, rest);
            lemma_tokens_space_prefix(' ', name);
            lemma_fold_lower("login"@);
            let toks = tokens_of(s);
            assert(toks == seq!["login"@] + tokens_of(name));
            assert(toks[0] == "login"@);
            assert(toks.drop_first() =~= tokens_of(name));
        },
        MessageModel::Deposit(n) => {
            lemma_fold_lower("deposit"@);
            lemma_amount_form("deposit"@, "deposit "@, n);
        },
        MessageModel::Start(n) => {
            lemma_fold_lower("start"@);
            lemma_amount_form("start"@, "start "@, n);
        },
    }
}

/// The shared argument of the `deposit` and `start` round trips: the
/// rendered text splits into the keyword and the digits, and the digits
/// read back as the amount.
proof fn lemma_amount_form(kw: Seq<char>, kwsp: Seq<char>, n: int)
    requires
        1 <= n <= u32::MAX,
        kw.len() >= 1,
        forall|m: int| 0 <= m < kw.len() ==> !is_space(#[trigger] kw[m]),
        kwsp == kw + seq![' '],
    ensures
        tokens_of(kwsp + dec_digits(n as nat)) == seq![kw, dec_digits(n as nat)],
        parse_amount_spec(tokens_of(kwsp + dec_digits(n as nat)), "Deposit amount has to be a positive number"@)
            == Result::<int, Seq<char>>::Ok(n),
        parse_amount_spec(tokens_of(kwsp + dec_digits(n as nat)), "Bet amount has to be a positive number"@)
            == Result::<int, Seq<char>>::Ok(n),
{
    let d = dec_digits(n as nat);
    lemma_dec_digits(n as nat);
    lemma_digits_not_space(d);
    assert(kwsp + d =~= kw + seq![' '] + d);
    lemma_keyword_arg_tokens(kw, d);
    let toks = tokens_of(kwsp + d);
    assert(toks == seq![kw, d]);
    assert(toks.len() == 2 && toks[1] == d);
    assert(d[0] != '+') by {
        assert(is_digit(d[0]));
    }
    assert(number_token(d) == Option::Some(d));
    assert(digits_value(d) == n);
}

/// Whatever parsing accepts is canonical: names come out space-joined and
/// amounts positive.
pub proof fn lemma_parse_canonical(s: Seq<char>)
    ensures
        parse_spec(s) matches Result::Ok(m) ==> is_canonical(m),
{
    if parse_spec(s) is Ok {
        let m = parse_spec(s)->Ok_0;
        let toks = tokens_of(s);
        lemma_tokens_wordlike(s);
        match m {
            MessageModel::Login(name) => {
                let tail = toks.drop_first();
                assert forall|t: int| 0 <= t < tail.len() implies #[trigger] tail[t].len()
                    >= 1 by {
                    assert(tail[t] == toks[t + 1]);
                }
                assert forall|t: int, k: int|
                    0 <= t < tail.len() && 0 <= k < tail[t].len() implies !is_space(
                    #[trigger] tail[t][k],
                ) by {
                    assert(tail[t] == toks[t + 1]);
                }
                lemma_tokens_of_join(tail);
            },
            MessageModel::Deposit(n) => {
                lemma_amount_canonical(toks);
            },
            MessageModel::Start(n) => {
                lemma_amount_canonical(toks);
            },
            _ => {},
        }
    }
}

/// An accepted amount lies between one and the 32-bit maximum.
proof fn lemma_amount_canonical(toks: Seq<Seq<char>>)
    requires
        toks.len() >= 2,
    ensures
        parse_amount_spec(toks, "Deposit amount has to be a positive number"@) matches Result::Ok(
            n,
        ) ==> 1 <= n <= u32::MAX,
        parse_amount_spec(toks, "Bet amount has to be a positive number"@) matches Result::Ok(n)
            ==> 1 <= n <= u32::MAX,
{
    match number_token(toks[1]) {
        Option::Some(d) => {
            lemma_digits_value_bounds(d);
        },
        Option::None => {},
    }
}

/// Round trip: re-parsing the rendering of any message that parsing
/// produced gives that same message.
pub proof fn lemma_parse_render_roundtrip(s: Seq<char>)
    ensures
        parse_spec(s) matches Result::Ok(m) ==> parse_spec(render_spec(m)) == Result::<
            MessageModel,
            Seq<char>,
        >::Ok(m),
{
    if parse_spec(s) is Ok {
        lemma_parse_canonical(s);
        lemma_render_parse(parse_spec(s)->Ok_0);
    }
}

impl core::str::FromStr for Message {
    type Err = InvalidMessageError;

    fn from_str(s: &str) -> Result<Message, InvalidMessageError> {
        Message::parse(s)
    }
}

} // verus!
