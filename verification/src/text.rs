//! Character-level helpers shared by the command grammar and the wire frame:
//! ASCII case folding, whitespace, decimal digits, and the conversions
//! between numbers and their decimal text.

use vstd::prelude::*;

verus! {

use vstd::std_specs::iter::IteratorSpec;

/// The whitespace characters the protocol recognises: the ASCII set.
pub open spec fn is_space(c: char) -> bool {
    c == ' ' || c == '\t' || c == '\n' || c == '\r' || c == '\x0b' || c == '\x0c'
}

/// ASCII case folding of one character; other characters stand unchanged.
pub open spec fn fold_char_spec(c: char) -> char {
    if 'A' <= c <= 'Z' {
        ((c as u8) + 0x20) as char
    } else {
        c
    }
}

/// A sequence folded to lower case, character by character.
pub open spec fn fold_seq(s: Seq<char>) -> Seq<char> {
    s.map_values(|c: char| fold_char_spec(c))
}

/// Folds one character to ASCII lower case.
pub fn fold_char(c: char) -> (r: char)
    ensures
        r == fold_char_spec(c),
{
    if 'A' <= c && c <= 'Z' {
        (((c as u8) + 0x20) as char)
    } else {
        c
    }
}

/// Folding twice folds no further.
pub proof fn lemma_fold_idempotent(s: Seq<char>)
    ensures
        fold_seq(fold_seq(s)) == fold_seq(s),
{
    assert(fold_seq(fold_seq(s)) =~= fold_seq(s));
}

/// Folds a whole string to ASCII lower case.
#[verifier::loop_isolation(false)]
pub fn fold_string(s: &str) -> (r: String)
    ensures
        r@ == fold_seq(s@),
{
    let v = chars_of(s);
    let n = v.len();
    let mut r = String::new();
    let mut i: usize = 0;
    proof {
        assert(r@ =~= fold_seq(v@.take(0)));
    }
    while i < n
        invariant
            i <= n,
            r@ == fold_seq(v@.take(i as int)),
        decreases n - i,
    {
        r.push(fold_char(v[i]));
        proof {
            assert(fold_seq(v@.take(i + 1)) =~= fold_seq(v@.take(i as int)).push(
                fold_char_spec(v@[i as int]),
            ));
        }
        i = i + 1;
    }
    proof {
        assert(v@.take(n as int) =~= v@);
    }
    r
}

/// Tests a character for ASCII whitespace.
pub fn is_space_char(c: char) -> (r: bool)
    ensures
        r == is_space(c),
{
    c == ' ' || c == '\t' || c == '\n' || c == '\r' || c == '\x0b' || c == '\x0c'
}

/// Collects the characters of a string slice into a vector.
pub fn chars_of(s: &str) -> (v: Vec<char>)
    ensures
        v@ == s@,
{
    let mut v: Vec<char> = Vec::new();
    let mut it = s.chars();
    loop
        invariant
            it.obeys_prophetic_iter_laws(),
            it.decrease() is Some,
            v@ + it.remaining() == s@,
        ensures
            v@ == s@,
        decreases it.decrease()->0,
    {
        match it.next() {
            Some(c) => {
                v.push(c);
            },
            None => {
                assert(v@ =~= s@);
                break ;
            },
        }
    }
    v
}

/// Relies on String::push: it appends the one character to the string.
pub assume_specification [ String::push ](s: &mut String, c: char)
    ensures
        final(s)@ == old(s)@.push(c),
;

/// A decimal digit.
pub open spec fn is_digit(c: char) -> bool {
    '0' <= c <= '9'
}

/// The value of one decimal digit character.
pub open spec fn digit_val(c: char) -> int {
    c as int - 48
}

/// The digit character for a value below ten.
pub open spec fn digit_char(d: int) -> char {
    ((48 + d) as u8) as char
}

/// Every character of the sequence is a decimal digit.
pub open spec fn all_digits(s: Seq<char>) -> bool {
    forall|i: int| 0 <= i < s.len() ==> is_digit(#[trigger] s[i])
}

/// The number a digit sequence denotes, most significant digit first.
pub open spec fn digits_value(s: Seq<char>) -> int
    decreases s.len(),
{
    if s.len() == 0 {
        0
    } else {
        digits_value(s.drop_last()) * 10 + digit_val(s.last())
    }
}

/// The canonical decimal text of a number: no sign, no leading zero.
pub open spec fn dec_digits(n: nat) -> Seq<char>
    decreases n,
{
    if n < 10 {
        seq![digit_char(n as int)]
    } else {
        dec_digits(n / 10).push(digit_char((n % 10) as int))
    }
}

/// The canonical decimal text consists of digits, is never empty, and
/// denotes the number it was built from.
pub proof fn lemma_dec_digits(n: nat)
    ensures
        dec_digits(n).len() >= 1,
        all_digits(dec_digits(n)),
        digits_value(dec_digits(n)) == n,
        n >= 1 ==> dec_digits(n)[0] != '0',
        n < 10 ==> dec_digits(n).len() == 1,
    decreases n,
{
    if n < 10 {
        let s = dec_digits(n);
        assert(s.drop_last() =~= Seq::<char>::empty());
        assert(s.last() == digit_char(n as int));
        assert(digit_char(n as int) as int == 48 + n);
        assert(digits_value(Seq::<char>::empty()) == 0);
        assert(digits_value(s) == 0 * 10 + digit_val(s.last()));
    } else {
        lemma_dec_digits(n / 10);
        assert(dec_digits(n).drop_last() =~= dec_digits(n / 10));
        assert(dec_digits(n)[0] == dec_digits(n / 10)[0]);
    }
}

/// Digit sequences denote non-negative numbers, and longer prefixes never
/// denote less.
pub proof fn lemma_digits_value_bounds(s: Seq<char>)
    requires
        all_digits(s),
    ensures
        digits_value(s) >= 0,
        s.len() >= 1 ==> digits_value(s) >= digits_value(s.drop_last()),
    decreases s.len(),
{
    if s.len() >= 1 {
        lemma_digits_value_bounds(s.drop_last());
    }
}

/// A digit appended to a prefix whose value is already too large keeps the
/// value too large.
pub proof fn lemma_digits_value_grows(s: Seq<char>, i: int, j: int)
    requires
        all_digits(s),
        0 <= i <= j <= s.len(),
    ensures
        digits_value(s.take(i)) <= digits_value(s.take(j)),
    decreases j - i,
{
    if i < j {
        lemma_digits_value_grows(s, i, j - 1);
        assert(s.take(j).drop_last() =~= s.take(j - 1));
        assert(all_digits(s.take(j)));
        lemma_digits_value_bounds(s.take(j));
    }
}

/// Writes a digit value below ten as its character.
fn digit_char_of(d: u8) -> (c: char)
    requires
        d < 10,
    ensures
        c == digit_char(d as int),
{
    (48 + d) as char
}

/// Renders a number as its canonical decimal text.
pub fn u64_to_string(n: u64) -> (s: String)
    ensures
        s@ == dec_digits(n as nat),
    decreases n,
{
    if n < 10 {
        let mut s = String::new();
        s.push(digit_char_of(n as u8));
        assert(s@ =~= dec_digits(n as nat));
        s
    } else {
        let mut s = u64_to_string(n / 10);
        s.push(digit_char_of((n % 10) as u8));
        s
    }
}

/// The digit part of an unsigned number token: an optional leading plus
/// sign, then at least one digit.
pub open spec fn number_token(s: Seq<char>) -> Option<Seq<char>> {
    let rest = if s.len() >= 1 && s[0] == '+' {
        s.drop_first()
    } else {
        s
    };
    if rest.len() >= 1 && all_digits(rest) {
        Some(rest)
    } else {
        None
    }
}

/// What a text parses to as an unsigned number no greater than `max`:
/// `None` both for malformed text and for a value out of range.
pub open spec fn parse_uint_spec(s: Seq<char>, max: int) -> Option<int> {
    match number_token(s) {
        Option::None => Option::None,
        Option::Some(d) => if digits_value(d) <= max {
            Option::Some(digits_value(d))
        } else {
            Option::None
        },
    }
}

/// Parses the characters `v[start..end]` as an unsigned 64-bit number,
/// accepting an optional leading plus sign, exactly as `parse_uint_spec`
/// describes.
#[verifier::loop_isolation(false)]
pub fn parse_u64_range(v: &Vec<char>, start: usize, end: usize) -> (r: Option<u64>)
    requires
        start <= end <= v@.len(),
    ensures
        match r {
            Option::Some(n) => parse_uint_spec(v@.subrange(start as int, end as int), u64::MAX as int)
                == Option::Some(n as int),
            Option::None => parse_uint_spec(v@.subrange(start as int, end as int), u64::MAX as int)
                is None,
        },
{
    let ghost s = v@.subrange(start as int, end as int);
    let mut i = start;
    if i < end && v[i] == '+' {
        i = i + 1;
    }
    let ghost digits = if s.len() >= 1 && s[0] == '+' {
        s.drop_first()
    } else {
        s
    };
    proof {
        assert(digits =~= v@.subrange(i as int, end as int));
    }
    if i == end {
        return None;
    }
    let ghost dstart = i as int;
    let mut val: u64 = 0;
    while i < end
        invariant
            0 <= dstart <= i as int <= end as int <= v@.len(),
            digits == v@.subrange(dstart, end as int),
            digits.len() >= 1,
            all_digits(digits.take(i - dstart)),
            digits_value(digits.take(i - dstart)) == val,
        decreases end - i,
    {
        let c = v[i];
        proof {
            assert(v@.subrange(dstart, end as int)[i - dstart] == v@[i as int]);
        }
        if !('0' <= c && c <= '9') {
            assert(!is_digit(digits[i - dstart]));
            assert(!all_digits(digits));
            return None;
        }
        let d: u64 = (c as u32 - 48) as u64;
        proof {
            assert(d == digit_val(c));
            assert(digits.take(i + 1 - dstart) =~= digits.take(i - dstart).push(c));
            assert(digits.take(i + 1 - dstart).drop_last() =~= digits.take(i - dstart));
            assert(digits.take(i + 1 - dstart).last() == c);
            assert(digits_value(digits.take(i + 1 - dstart)) == val * 10 + d);
            assert(all_digits(digits.take(i + 1 - dstart)));
        }
        let next = match val.checked_mul(10) {
            Some(x) => x.checked_add(d),
            None => None,
        };
        match next {
            Some(x) => {
                val = x;
            },
            None => {
                proof {
                    assert(digits_value(digits.take(i + 1 - dstart)) > u64::MAX);
                    if all_digits(digits) {
                        lemma_digits_value_grows(digits, i + 1 - dstart, digits.len() as int);
                        assert(digits.take(digits.len() as int) =~= digits);
                        assert(digits_value(digits) > u64::MAX);
                    }
                }
                return None;
            },
        }
        i = i + 1;
    }
    proof {
        assert(digits.take(i - dstart) =~= digits);
    }
    Some(val)
}

/// The text with leading whitespace removed.
pub open spec fn trim_front(s: Seq<char>) -> Seq<char>
    decreases s.len(),
{
    if s.len() > 0 && is_space(s[0]) {
        trim_front(s.drop_first())
    } else {
        s
    }
}

/// The text with trailing whitespace removed.
pub open spec fn trim_back(s: Seq<char>) -> Seq<char>
    decreases s.len(),
{
    if s.len() > 0 && is_space(s.last()) {
        trim_back(s.drop_last())
    } else {
        s
    }
}

/// The text with whitespace removed at both ends.
pub open spec fn trim_spec(s: Seq<char>) -> Seq<char> {
    trim_back(trim_front(s))
}

/// Copies the characters `v[start..end]` into a string.
#[verifier::loop_isolation(false)]
pub fn string_of_range(v: &Vec<char>, start: usize, end: usize) -> (s: String)
    requires
        start <= end <= v@.len(),
    ensures
        s@ == v@.subrange(start as int, end as int),
{
    let mut s = String::new();
    let mut k = start;
    proof {
        assert(s@ =~= v@.subrange(start as int, start as int));
    }
    while k < end
        invariant
            start <= k <= end,
            s@ == v@.subrange(start as int, k as int),
        decreases end - k,
    {
        s.push(v[k]);
        proof {
            assert(v@.subrange(start as int, k + 1) =~= v@.subrange(start as int, k as int).push(
                v@[k as int],
            ));
        }
        k = k + 1;
    }
    s
}

/// Removes whitespace from both ends, as `trim_spec` describes.
#[verifier::loop_isolation(false)]
pub fn trim_chars(v: &Vec<char>) -> (s: String)
    ensures
        s@ == trim_spec(v@),
{
    let n = v.len();
    let mut a: usize = 0;
    proof {
        assert(v@.skip(0) =~= v@);
    }
    while a < n && is_space_char(v[a])
        invariant
            a <= n,
            trim_front(v@) == trim_front(v@.skip(a as int)),
        decreases n - a,
    {
        proof {
            assert(v@.skip(a as int).drop_first() =~= v@.skip(a + 1));
        }
        a = a + 1;
    }
    proof {
        assert(trim_front(v@.skip(a as int)) == v@.skip(a as int));
    }
    let mut b: usize = n;
    while b > a && is_space_char(v[b - 1])
        invariant
            a <= b <= n,
            trim_back(v@.skip(a as int)) == trim_back(v@.subrange(a as int, b as int)),
        decreases b,
    {
        proof {
            assert(v@.subrange(a as int, b as int).drop_last() =~= v@.subrange(a as int, b - 1));
        }
        b = b - 1;
    }
    proof {
        assert(trim_back(v@.subrange(a as int, b as int)) == v@.subrange(a as int, b as int));
    }
    string_of_range(v, a, b)
}

/// The length of the leading run of non-whitespace characters.
pub open spec fn run_len(s: Seq<char>) -> nat
    decreases s.len(),
{
    if s.len() == 0 || is_space(s[0]) {
        0
    } else {
        1 + run_len(s.drop_first())
    }
}

/// The leading run is never longer than the sequence.
pub proof fn lemma_run_len_le(s: Seq<char>)
    ensures
        run_len(s) <= s.len(),
    decreases s.len(),
{
    if s.len() > 0 && !is_space(s[0]) {
        lemma_run_len_le(s.drop_first());
    }
}

/// The maximal whitespace-separated words of a text, in order.
pub open spec fn tokens_of(s: Seq<char>) -> Seq<Seq<char>>
    decreases s.len(),
    via tokens_of_decreases
{
    if s.len() == 0 {
        Seq::empty()
    } else if is_space(s[0]) {
        tokens_of(s.drop_first())
    } else {
        seq![s.take(run_len(s) as int)] + tokens_of(s.skip(run_len(s) as int))
    }
}

#[via_fn]
proof fn tokens_of_decreases(s: Seq<char>) {
    if s.len() > 0 && !is_space(s[0]) {
        assert(run_len(s) == 1 + run_len(s.drop_first()));
        lemma_run_len_le(s);
    }
}

/// A run of `k` non-whitespace characters closed off by the end of the text
/// or by whitespace is exactly the leading run.
pub proof fn lemma_run_len_exact(s: Seq<char>, k: int)
    requires
        0 <= k <= s.len(),
        forall|m: int| 0 <= m < k ==> !is_space(#[trigger] s[m]),
        k == s.len() || is_space(s[k]),
    ensures
        run_len(s) == k,
    decreases k,
{
    if k == 0 {
    } else {
        lemma_run_len_exact(s.drop_first(), k - 1);
    }
}

/// Every token is a non-empty word without whitespace.
pub proof fn lemma_tokens_wordlike(s: Seq<char>)
    ensures
        forall|t: int| 0 <= t < tokens_of(s).len() ==> #[trigger] tokens_of(s)[t].len() >= 1,
        forall|t: int, m: int|
            0 <= t < tokens_of(s).len() && 0 <= m < tokens_of(s)[t].len() ==> !is_space(
                #[trigger] tokens_of(s)[t][m],
            ),
    decreases s.len(),
{
    if s.len() == 0 {
    } else if is_space(s[0]) {
        lemma_tokens_wordlike(s.drop_first());
        assert(tokens_of(s) == tokens_of(s.drop_first()));
    } else {
        lemma_run_len_le(s);
        assert(run_len(s) == 1 + run_len(s.drop_first()));
        lemma_tokens_wordlike(s.skip(run_len(s) as int));
        let first = s.take(run_len(s) as int);
        let rest = tokens_of(s.skip(run_len(s) as int));
        assert(tokens_of(s) == seq![first] + rest);
        assert forall|m: int| 0 <= m < first.len() implies !is_space(#[trigger] first[m]) by {
            lemma_run_len_within(s, m);
        }
        assert forall|t: int| 0 <= t < tokens_of(s).len() implies #[trigger] tokens_of(
            s,
        )[t].len() >= 1 by {
            if t == 0 {
                assert(tokens_of(s)[0] == first);
            } else {
                assert(tokens_of(s)[t] == rest[t - 1]);
            }
        }
        assert forall|t: int, m: int|
            0 <= t < tokens_of(s).len() && 0 <= m < tokens_of(s)[t].len() implies !is_space(
            #[trigger] tokens_of(s)[t][m],
        ) by {
            if t == 0 {
                assert(tokens_of(s)[0] == first);
            } else {
                assert(tokens_of(s)[t] == rest[t - 1]);
            }
        }
    }
}

/// Characters inside the leading run are not whitespace.
pub proof fn lemma_run_len_within(s: Seq<char>, m: int)
    requires
        0 <= m < run_len(s),
    ensures
        !is_space(s[m]),
    decreases m,
{
    assert(run_len(s) > 0);
    assert(s.len() > 0 && !is_space(s[0]));
    lemma_run_len_le(s);
    if m > 0 {
        assert(run_len(s) == 1 + run_len(s.drop_first()));
        lemma_run_len_within(s.drop_first(), m - 1);
        assert(s.drop_first() =~= s.subrange(1, s.len() as int));
        assert(s.drop_first()[m - 1] == s[m]);
    }
}

/// Splits a text into its whitespace-separated words.
#[verifier::loop_isolation(false)]
pub fn tokenize(v: &Vec<char>) -> (toks: Vec<Vec<char>>)
    ensures
        toks.deep_view() == tokens_of(v@),
{
    let n = v.len();
    let mut toks: Vec<Vec<char>> = Vec::new();
    let mut i: usize = 0;
    proof {
        assert(v@.skip(0) =~= v@);
        assert(toks.deep_view() + tokens_of(v@) =~= tokens_of(v@));
    }
    while i < n
        invariant
            i <= n,
            toks.deep_view() + tokens_of(v@.skip(i as int)) == tokens_of(v@),
        decreases n - i,
    {
        if is_space_char(v[i]) {
            proof {
                assert(v@.skip(i as int).drop_first() =~= v@.skip(i + 1));
            }
            i = i + 1;
        } else {
            let mut j = i;
            let mut tok: Vec<char> = Vec::new();
            while j < n && !is_space_char(v[j])
                invariant
                    i <= j <= n,
                    tok@ == v@.subrange(i as int, j as int),
                    forall|m: int| i as int <= m < j as int ==> !is_space(#[trigger] v@[m]),
                decreases n - j,
            {
                tok.push(v[j]);
                proof {
                    assert(tok@ =~= v@.subrange(i as int, j + 1));
                }
                j = j + 1;
            }
            proof {
                let rest = v@.skip(i as int);
                assert forall|m: int| 0 <= m < j as int - i as int implies !is_space(
                    #[trigger] rest[m],
                ) by {
                    assert(rest[m] == v@[i + m]);
                }
                if (j as int) < n as int {
                    assert(rest[j as int - i as int] == v@[j as int]);
                }
                lemma_run_len_exact(rest, j as int - i as int);
                assert(rest.take(run_len(rest) as int) =~= v@.subrange(i as int, j as int));
                assert(rest.skip(run_len(rest) as int) =~= v@.skip(j as int));
                assert(tokens_of(rest) == seq![tok@] + tokens_of(v@.skip(j as int)));
            }
            let ghost prev = toks.deep_view();
            let ghost t = tok@;
            toks.push(tok);
            proof {
                assert forall|k: int| 0 <= k < toks.deep_view().len() implies toks.deep_view()[k]
                    == prev.push(t)[k] by {
                    if k < prev.len() {
                        assert(toks@[k] == toks@.subrange(0, prev.len() as int)[k]);
                    }
                }
                assert(toks.deep_view() =~= prev.push(t));
                assert(prev.push(t) + tokens_of(v@.skip(j as int)) =~= prev + tokens_of(
                    v@.skip(i as int),
                ));
            }
            i = j;
        }
    }
    proof {
        assert(v@.skip(n as int) =~= Seq::<char>::empty());
        assert(toks.deep_view() =~= tokens_of(v@));
    }
    toks
}

/// Words joined by single spaces.
pub open spec fn join_tokens(toks: Seq<Seq<char>>) -> Seq<char>
    decreases toks.len(),
{
    if toks.len() == 0 {
        Seq::empty()
    } else if toks.len() == 1 {
        toks[0]
    } else {
        toks[0] + seq![' '] + join_tokens(toks.drop_first())
    }
}

/// Joining one more word appends a space and the word.
pub proof fn lemma_join_push(ts: Seq<Seq<char>>, t: Seq<char>)
    ensures
        join_tokens(ts.push(t)) == if ts.len() == 0 {
            t
        } else {
            join_tokens(ts) + seq![' '] + t
        },
    decreases ts.len(),
{
    if ts.len() == 0 {
        assert(ts.push(t).len() == 1);
        assert(join_tokens(ts.push(t)) == ts.push(t)[0]);
    } else if ts.len() == 1 {
        assert(ts.push(t).drop_first() =~= seq![t]);
        assert(join_tokens(seq![t]) == seq![t][0]);
        assert(join_tokens(ts.push(t)) == ts.push(t)[0] + seq![' '] + join_tokens(seq![t]));
        assert(join_tokens(ts.push(t)) == ts[0] + seq![' '] + t);
    } else {
        lemma_join_push(ts.drop_first(), t);
        assert(ts.push(t).drop_first() =~= ts.drop_first().push(t));
        assert(join_tokens(ts) + seq![' '] + t =~= ts[0] + seq![' '] + (join_tokens(
            ts.drop_first(),
        ) + seq![' '] + t));
    }
}

/// A leading whitespace character changes no word.
pub proof fn lemma_tokens_space_prefix(c: char, x: Seq<char>)
    requires
        is_space(c),
    ensures
        tokens_of(seq![c] + x) == tokens_of(x),
{
    assert((seq![c] + x).drop_first() =~= x);
}

/// The words of a word followed by a whitespace-or-empty remainder are the
/// word and the remainder's words.
pub proof fn lemma_tokens_concat_word(w: Seq<char>, rest: Seq<char>)
    requires
        w.len() >= 1,
        forall|m: int| 0 <= m < w.len() ==> !is_space(#[trigger] w[m]),
        rest.len() == 0 || is_space(rest[0]),
    ensures
        tokens_of(w + rest) == seq![w] + tokens_of(rest),
{
    let s = w + rest;
    assert forall|m: int| 0 <= m < w.len() implies !is_space(#[trigger] s[m]) by {
        assert(s[m] == w[m]);
    }
    if rest.len() > 0 {
        assert(s[w.len() as int] == rest[0]);
    }
    lemma_run_len_exact(s, w.len() as int);
    assert(!is_space(s[0]));
    assert(s.take(w.len() as int) =~= w);
    assert(s.skip(w.len() as int) =~= rest);
}

/// Splitting a text of space-free words joined by single spaces gives those
/// words back.
pub proof fn lemma_tokens_of_join(toks: Seq<Seq<char>>)
    requires
        forall|t: int| 0 <= t < toks.len() ==> #[trigger] toks[t].len() >= 1,
        forall|t: int, m: int|
            0 <= t < toks.len() && 0 <= m < toks[t].len() ==> !is_space(#[trigger] toks[t][m]),
    ensures
        tokens_of(join_tokens(toks)) == toks,
    decreases toks.len(),
{
    if toks.len() == 0 {
        assert(tokens_of(join_tokens(toks)) =~= toks);
    } else if toks.len() == 1 {
        lemma_tokens_concat_word(toks[0], Seq::empty());
        assert(toks[0] + Seq::<char>::empty() =~= toks[0]);
        assert(tokens_of(Seq::<char>::empty()) =~= Seq::<Seq<char>>::empty());
        assert(seq![toks[0]] + Seq::<Seq<char>>::empty() =~= toks);
    } else {
        let tail = toks.drop_first();
        lemma_tokens_of_join(tail);
        let rest = seq![' '] + join_tokens(tail);
        assert(join_tokens(toks) =~= toks[0] + rest);
        lemma_tokens_concat_word(toks[0], rest);
        lemma_tokens_space_prefix(' ', join_tokens(tail));
        assert(seq![toks[0]] + tail =~= toks);
    }
}

/// Renders the words `toks[from..]` joined by single spaces.
#[verifier::loop_isolation(false)]
pub fn join_from(toks: &Vec<Vec<char>>, from: usize) -> (s: String)
    requires
        from <= toks@.len(),
    ensures
        s@ == join_tokens(toks.deep_view().skip(from as int)),
{
    let n = toks.len();
    let mut s = String::new();
    let mut k = from;
    proof {
        assert(toks.deep_view().subrange(from as int, from as int)
            =~= Seq::<Seq<char>>::empty());
    }
    while k < n
        invariant
            from <= k <= n,
            s@ == join_tokens(toks.deep_view().subrange(from as int, k as int)),
        decreases n - k,
    {
        let ghost prefix = toks.deep_view().subrange(from as int, k as int);
        if k > from {
            s.push(' ');
        }
        let tok = &toks[k];
        let mut m: usize = 0;
        let ghost base = s@;
        while m < tok.len()
            invariant
                m <= tok@.len(),
                s@ == base + tok@.take(m as int),
            decreases tok@.len() - m,
        {
            s.push(tok[m]);
            proof {
                assert(base + tok@.take(m + 1) =~= (base + tok@.take(m as int)).push(tok@[m as int]));
            }
            m = m + 1;
        }
        proof {
            assert(tok@.take(tok@.len() as int) =~= tok@);
            lemma_join_push(prefix, toks.deep_view()[k as int]);
            assert(toks.deep_view().subrange(from as int, k + 1) =~= prefix.push(
                toks.deep_view()[k as int],
            ));
            if k > from {
                assert(s@ =~= join_tokens(prefix) + seq![' '] + tok@);
            } else {
                assert(prefix.len() == 0);
                assert(s@ =~= tok@);
            }
        }
        k = k + 1;
    }
    proof {
        assert(toks.deep_view().subrange(from as int, n as int) =~= toks.deep_view().skip(
            from as int,
        ));
    }
    s
}

} // verus!
