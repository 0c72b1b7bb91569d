use vstd::prelude::*;
use vstd::string::*;

verus! {

/// `c` is white space: what `char::is_whitespace` tells of it.
pub uninterp spec fn white(c: char) -> bool;

/// Tells whether a character is white space, through
/// `char::is_whitespace`.
///
/// Not verified; the contract only gives the result its name.
#[verifier::external_body]
pub(crate) fn is_white(c: char) -> (r: bool)
    ensures
        r == white(c),
{
    c.is_whitespace()
}

/// Number of characters at the start of `s` before its first white space.
pub open spec fn word_len(s: Seq<char>) -> int
    decreases s.len(),
{
    if s.len() == 0 || white(s[0]) {
        0
    } else {
        1 + word_len(s.skip(1))
    }
}

/// The words of a text: its longest runs of characters that are not white
/// space, in order.
pub open spec fn words_of(s: Seq<char>) -> Seq<Seq<char>>
    decreases s.len(),
    via words_of_ends
{
    if s.len() == 0 {
        Seq::empty()
    } else if white(s[0]) {
        words_of(s.skip(1))
    } else {
        seq![s.take(word_len(s))] + words_of(s.skip(word_len(s)))
    }
}

#[via_fn]
proof fn words_of_ends(s: Seq<char>) {
    lemma_word_len_bounds(s);
}

/// A first word ends within the text, and is not empty where the text
/// starts with a character that is not white space.
pub proof fn lemma_word_len_bounds(s: Seq<char>)
    ensures
        0 <= word_len(s) <= s.len(),
        s.len() > 0 && !white(s[0]) ==> word_len(s) >= 1,
    decreases s.len(),
{
    if s.len() > 0 && !white(s[0]) {
        lemma_word_len_bounds(s.skip(1));
    }
}

/// Number of white space characters at the start of `s`.
pub open spec fn lead(s: Seq<char>) -> int
    decreases s.len(),
{
    if s.len() == 0 || !white(s[0]) {
        0
    } else {
        1 + lead(s.skip(1))
    }
}

/// Number of white space characters at the end of `s`.
pub open spec fn trail(s: Seq<char>) -> int
    decreases s.len(),
{
    if s.len() == 0 || !white(s.last()) {
        0
    } else {
        1 + trail(s.drop_last())
    }
}

/// A text without the white space at its ends.
pub open spec fn trim_of(s: Seq<char>) -> Seq<char> {
    let rest = s.skip(lead(s));
    rest.take(rest.len() - trail(rest))
}

/// The texts of a list of words.
pub open spec fn texts(words: Seq<String>) -> Seq<Seq<char>> {
    Seq::new(words.len(), |i: int| words[i]@)
}

proof fn lemma_word_len(s: Seq<char>, k: int)
    requires
        0 <= k <= s.len(),
        forall|j: int| 0 <= j < k ==> !white(#[trigger] s[j]),
        k < s.len() ==> white(s[k]),
    ensures
        word_len(s) == k,
    decreases k,
{
    if k > 0 {
        let t = s.skip(1);
        assert forall|j: int| 0 <= j < k - 1 implies !white(#[trigger] t[j]) by {
            assert(t[j] == s[j + 1]);
        }
        lemma_word_len(t, k - 1);
    }
}

proof fn lemma_lead(s: Seq<char>, k: int)
    requires
        0 <= k <= s.len(),
        forall|j: int| 0 <= j < k ==> white(#[trigger] s[j]),
        k < s.len() ==> !white(s[k]),
    ensures
        lead(s) == k,
    decreases k,
{
    if k > 0 {
        let t = s.skip(1);
        assert forall|j: int| 0 <= j < k - 1 implies white(#[trigger] t[j]) by {
            assert(t[j] == s[j + 1]);
        }
        lemma_lead(t, k - 1);
    }
}

proof fn lemma_trail(s: Seq<char>, k: int)
    requires
        0 <= k <= s.len(),
        forall|j: int| s.len() - k <= j < s.len() ==> white(#[trigger] s[j]),
        k < s.len() ==> !white(s[s.len() - k - 1]),
    ensures
        trail(s) == k,
    decreases k,
{
    if k > 0 {
        let t = s.drop_last();
        assert forall|j: int| t.len() - (k - 1) <= j < t.len() implies white(#[trigger] t[j]) by {
            assert(t[j] == s[j]);
        }
        lemma_trail(t, k - 1);
    }
}

/// The characters of a text.
pub fn chars_of(s: &str) -> (v: Vec<char>)
    ensures
        v@ == s@,
{
    let n = s.unicode_len();
    let mut v: Vec<char> = Vec::new();
    let mut i: usize = 0;
    while i < n
        invariant
            0 <= i <= n,
            n == s@.len(),
            v@ == s@.take(i as int),
        decreases n - i,
    {
        v.push(s.get_char(i));
        assert(v@ =~= s@.take(i + 1));
        i += 1;
    }
    assert(s@.take(n as int) =~= s@);
    v
}

/// Splits a text into its words.
pub fn split_words(s: &str) -> (r: Vec<String>)
    ensures
        texts(r@) == words_of(s@),
{
    let all = chars_of(s);
    let n = all.len();
    let mut words: Vec<String> = Vec::new();
    let mut i: usize = 0;
    proof {
        assert(s@.skip(0) =~= s@);
        assert(texts(words@) + words_of(s@.skip(0)) =~= words_of(s@));
    }
    while i < n
        invariant
            0 <= i <= n,
            n == s@.len(),
            all@ == s@,
            texts(words@) + words_of(s@.skip(i as int)) == words_of(s@),
        decreases n - i,
    {
        let ghost rest = s@.skip(i as int);
        let ghost before = texts(words@);
        if is_white(all[i]) {
            proof {
                assert(rest[0] == all@[i as int]);
                assert(rest.skip(1) =~= s@.skip(i + 1));
            }
            i += 1;
        } else {
            let mut word: Vec<char> = Vec::new();
            let mut j: usize = i;
            while j < n && !is_white(all[j])
                invariant
                    i <= j <= n,
                    n == s@.len(),
                    all@ == s@,
                    word@ == s@.subrange(i as int, j as int),
                    forall|k: int| i <= k < j ==> !white(#[trigger] s@[k]),
                decreases n - j,
            {
                word.push(all[j]);
                assert(word@ =~= s@.subrange(i as int, j + 1));
                j += 1;
            }
            proof {
                assert(rest[0] == all@[i as int]);
                assert forall|k: int| 0 <= k < j - i implies !white(#[trigger] rest[k]) by {
                    assert(rest[k] == s@[i + k]);
                }
                if j < n {
                    assert(rest[j - i] == s@[j as int]);
                }
                lemma_word_len(rest, j - i);
                assert(rest.take(j - i) =~= word@);
                assert(rest.skip(j - i) =~= s@.skip(j as int));
            }
            let text = string_of(&word);
            words.push(text);
            proof {
                assert(texts(words@) =~= before.push(word@));
                assert(before.push(word@) + words_of(s@.skip(j as int)) =~= before + (seq![
                    word@,
                ] + words_of(s@.skip(j as int))));
            }
            i = j;
        }
    }
    proof {
        assert(s@.skip(n as int) =~= Seq::<char>::empty());
        assert(texts(words@) + Seq::<Seq<char>>::empty() =~= texts(words@));
    }
    words
}

/// Takes the white space off both ends of a text.
pub fn trimmed(s: &str) -> (r: String)
    ensures
        r@ == trim_of(s@),
{
    let all = chars_of(s);
    let n = all.len();
    let mut a: usize = 0;
    while a < n && is_white(all[a])
        invariant
            0 <= a <= n,
            n == s@.len(),
            all@ == s@,
            forall|k: int| 0 <= k < a ==> white(#[trigger] s@[k]),
        decreases n - a,
    {
        a += 1;
    }
    let mut b: usize = n;
    while b > a && is_white(all[b - 1])
        invariant
            a <= b <= n,
            n == s@.len(),
            all@ == s@,
            forall|k: int| b <= k < n ==> white(#[trigger] s@[k]),
        decreases b,
    {
        b -= 1;
    }
    let mut kept: Vec<char> = Vec::new();
    let mut i: usize = a;
    while i < b
        invariant
            a <= i <= b <= n,
            n == s@.len(),
            all@ == s@,
            kept@ == s@.subrange(a as int, i as int),
        decreases b - i,
    {
        kept.push(all[i]);
        assert(kept@ =~= s@.subrange(a as int, i + 1));
        i += 1;
    }
    proof {
        lemma_lead(s@, a as int);
        let rest = s@.skip(a as int);
        assert forall|k: int| rest.len() - (n - b) <= k < rest.len() implies white(
            #[trigger] rest[k],
        ) by {
            assert(rest[k] == s@[a + k]);
        }
        if n - b < rest.len() {
            assert(rest[rest.len() - (n - b) - 1] == s@[b - 1]);
        }
        lemma_trail(rest, n - b);
        assert(rest.take(rest.len() - (n - b)) =~= s@.subrange(a as int, b as int));
    }
    string_of(&kept)
}

/// The text `pat` stands in `s` at the place `i`.
pub open spec fn occurs_at(s: Seq<char>, pat: Seq<char>, i: int) -> bool {
    0 <= i && i + pat.len() <= s.len() && s.subrange(i, i + pat.len()) == pat
}

/// The first place from `from` on at which `pat` stands in `s`; the
/// length of `s` where it stands at none, and for an empty `pat`.
pub open spec fn first_at(s: Seq<char>, pat: Seq<char>, from: int) -> int
    decreases s.len() - from,
{
    if from < 0 || pat.len() == 0 || from + pat.len() > s.len() {
        s.len() as int
    } else if occurs_at(s, pat, from) {
        from
    } else {
        first_at(s, pat, from + 1)
    }
}

/// The pieces of `s` from the place `from` on that the separator `pat`
/// parts: the text up to the first place where `pat` stands, then the
/// pieces of what follows it; the rest of `s` where `pat` stands nowhere.
/// An empty separator parts nothing.
pub open spec fn pieces(s: Seq<char>, pat: Seq<char>, from: int) -> Seq<Seq<char>>
    decreases s.len() - from,
    via pieces_ends
{
    let k = first_at(s, pat, from);
    if pat.len() == 0 || from < 0 || k + pat.len() > s.len() {
        seq![s.subrange(from, s.len() as int)]
    } else {
        seq![s.subrange(from, k)] + pieces(s, pat, k + pat.len())
    }
}

#[via_fn]
proof fn pieces_ends(s: Seq<char>, pat: Seq<char>, from: int) {
    if from >= 0 {
        lemma_first_at(s, pat, from);
    }
}

/// The first place found lies from `from` on and within the text; the
/// separator stands there unless the place is the end of the text.
pub proof fn lemma_first_at(s: Seq<char>, pat: Seq<char>, from: int)
    requires
        0 <= from,
    ensures
        first_at(s, pat, from) <= s.len(),
        from <= s.len() ==> from <= first_at(s, pat, from),
        pat.len() > 0 && first_at(s, pat, from) + pat.len() <= s.len() ==> occurs_at(
            s,
            pat,
            first_at(s, pat, from),
        ),
        pat.len() > 0 && first_at(s, pat, from) + pat.len() > s.len() ==> first_at(s, pat, from)
            == s.len(),
    decreases s.len() - from,
{
    if pat.len() > 0 && from + pat.len() <= s.len() && !occurs_at(s, pat, from) {
        lemma_first_at(s, pat, from + 1);
    }
}

/// A text has one piece at the least.
pub proof fn lemma_pieces_some(s: Seq<char>, pat: Seq<char>, from: int)
    ensures
        pieces(s, pat, from).len() >= 1,
{
}

/// The texts of a list of character lists.
pub open spec fn rows(v: Seq<Vec<char>>) -> Seq<Seq<char>> {
    Seq::new(v.len(), |i: int| v[i]@)
}

/// Tells whether `pat` stands in `s` at the place `i`.
fn stands_at(s: &Vec<char>, pat: &Vec<char>, i: usize) -> (r: bool)
    requires
        i + pat@.len() <= s@.len(),
    ensures
        r == occurs_at(s@, pat@, i as int),
{
    let m = pat.len();
    let n = s.len();
    let mut j: usize = 0;
    while j < m
        invariant
            0 <= j <= m,
            m == pat@.len(),
            n == s@.len(),
            i + m <= n,
            forall|k: int| 0 <= k < j ==> s@[i + k] == pat@[k],
        decreases m - j,
    {
        if s[i + j] != pat[j] {
            assert(s@.subrange(i as int, i + m)[j as int] != pat@[j as int]);
            return false;
        }
        j += 1;
    }
    assert(s@.subrange(i as int, i + m) =~= pat@);
    true
}

/// The first place from `from` on at which `pat` stands in `s`.
fn find_from(s: &Vec<char>, pat: &Vec<char>, from: usize) -> (k: usize)
    requires
        from <= s@.len(),
    ensures
        k == first_at(s@, pat@, from as int),
{
    let n = s.len();
    let m = pat.len();
    if m == 0 || m > n {
        return n;
    }
    let mut i: usize = from;
    while i <= n - m
        invariant
            from <= i <= n,
            m > 0,
            n == s@.len(),
            m == pat@.len(),
            m <= n,
            first_at(s@, pat@, from as int) == first_at(s@, pat@, i as int),
        decreases n - i,
    {
        if stands_at(s, pat, i) {
            return i;
        }
        i += 1;
    }
    n
}

/// Parts a text at each place where the separator stands, from left to
/// right.
pub fn split_on(s: &Vec<char>, pat: &Vec<char>) -> (r: Vec<Vec<char>>)
    ensures
        rows(r@) == pieces(s@, pat@, 0),
{
    let n = s.len();
    let m = pat.len();
    let mut out: Vec<Vec<char>> = Vec::new();
    let mut from: usize = 0;
    proof {
        assert(rows(out@) + pieces(s@, pat@, 0) =~= pieces(s@, pat@, 0));
    }
    loop
        invariant
            0 <= from <= n,
            n == s@.len(),
            m == pat@.len(),
            rows(out@) + pieces(s@, pat@, from as int) == pieces(s@, pat@, 0),
        decreases n - from,
    {
        let k = if m == 0 {
            n
        } else {
            find_from(s, pat, from)
        };
        proof {
            lemma_first_at(s@, pat@, from as int);
        }
        let last = m == 0 || m > n || k > n - m;
        let end = if last {
            n
        } else {
            k
        };
        let mut piece: Vec<char> = Vec::new();
        let mut i: usize = from;
        while i < end
            invariant
                from <= i <= end <= n,
                n == s@.len(),
                piece@ == s@.subrange(from as int, i as int),
            decreases end - i,
        {
            piece.push(s[i]);
            assert(piece@ =~= s@.subrange(from as int, i + 1));
            i += 1;
        }
        let ghost before = rows(out@);
        out.push(piece);
        proof {
            assert(rows(out@) =~= before.push(piece@));
        }
        if last {
            proof {
                assert(pieces(s@, pat@, from as int) =~= seq![piece@]);
                assert(before.push(piece@) =~= before + seq![piece@]);
            }
            return out;
        }
        proof {
            assert(before.push(piece@) + pieces(s@, pat@, k + m) =~= before + (seq![piece@]
                + pieces(s@, pat@, k + m)));
        }
        from = k + m;
    }
}

/// Builds a text from its characters, through `String::from_iter`.
///
/// Not verified; the contract says that the text holds the characters
/// given, in order.
#[verifier::external_body]
pub(crate) fn string_of(chars: &Vec<char>) -> (r: String)
    ensures
        r@ == chars@,
{
    String::from_iter(chars.iter())
}

/// Tells whether two texts hold the same characters.
pub fn same_text(a: &str, b: &str) -> (r: bool)
    ensures
        r == (a@ == b@),
{
    let n = a.unicode_len();
    if n != b.unicode_len() {
        return false;
    }
    let mut i: usize = 0;
    while i < n
        invariant
            0 <= i <= n,
            n == a@.len(),
            n == b@.len(),
            forall|j: int| 0 <= j < i ==> a@[j] == b@[j],
        decreases n - i,
    {
        if a.get_char(i) != b.get_char(i) {
            return false;
        }
        i += 1;
    }
    assert(a@ =~= b@);
    true
}

/// `c` is one of the ten decimal digits.
pub open spec fn is_digit(c: char) -> bool {
    '0' <= c <= '9'
}

/// Every character of `s` is a decimal digit.
pub open spec fn all_digits(s: Seq<char>) -> bool {
    forall|i: int| 0 <= i < s.len() ==> is_digit(#[trigger] s[i])
}

/// The number that the digits of `s` spell in base ten.
pub open spec fn decimal_value(s: Seq<char>) -> nat
    decreases s.len(),
{
    if s.len() == 0 {
        0
    } else {
        (10 * decimal_value(s.drop_last()) + (s.last() as int - '0' as int)) as nat
    }
}

/// The number that a text spells: one digit or more, after at most one
/// plus sign.
pub open spec fn number_of(s: Seq<char>) -> Option<nat> {
    let body = if s.len() > 0 && s[0] == '+' {
        s.skip(1)
    } else {
        s
    };
    if body.len() > 0 && all_digits(body) {
        Some(decimal_value(body))
    } else {
        None
    }
}

proof fn lemma_decimal_prefix(s: Seq<char>, j: int)
    requires
        all_digits(s),
        0 <= j <= s.len(),
    ensures
        decimal_value(s.take(j)) <= decimal_value(s),
    decreases s.len(),
{
    if j == s.len() {
        assert(s.take(j) =~= s);
    } else {
        assert(s.take(j) =~= s.drop_last().take(j));
        assert(is_digit(s.last()));
        lemma_decimal_prefix(s.drop_last(), j);
    }
}

/// Reads a number in base ten: `None` where the text is no number or the
/// number does not fit.
pub fn parse_number(s: &str) -> (r: Option<usize>)
    ensures
        r == match number_of(s@) {
            Some(n) => if n <= usize::MAX {
                Some(n as usize)
            } else {
                None
            },
            None => None,
        },
{
    let n = s.unicode_len();
    let start: usize = if n > 0 && s.get_char(0) == '+' {
        1
    } else {
        0
    };
    if start == n {
        return None;
    }
    let ghost body = if start == 1 {
        s@.skip(1)
    } else {
        s@
    };
    let mut total: usize = 0;
    let mut i: usize = start;
    proof {
        assert(body.take(0) =~= Seq::<char>::empty());
        assert(number_of(s@) == if body.len() > 0 && all_digits(body) {
            Some(decimal_value(body))
        } else {
            None
        });
    }
    while i < n
        invariant
            start <= i <= n,
            n == s@.len(),
            start < n,
            body.len() == n - start,
            forall|j: int| 0 <= j < body.len() ==> body[j] == s@[start + j],
            number_of(s@) == if body.len() > 0 && all_digits(body) {
                Some(decimal_value(body))
            } else {
                None
            },
            all_digits(body.take(i - start)),
            total == decimal_value(body.take(i - start)),
        decreases n - i,
    {
        let c = s.get_char(i);
        assert(body[i - start] == c);
        if !('0' <= c && c <= '9') {
            assert(!is_digit(body[i - start]));
            return None;
        }
        let d = (c as u32 - '0' as u32) as usize;
        proof {
            let more = body.take(i - start + 1);
            assert(more.drop_last() =~= body.take(i - start));
            assert(more.last() == c);
            assert forall|j: int| 0 <= j < more.len() implies is_digit(#[trigger] more[j]) by {
                if j < i - start {
                    assert(body.take(i - start)[j] == more[j]);
                }
            }
            if all_digits(body) {
                lemma_decimal_prefix(body, i - start + 1);
            }
        }
        if total > (usize::MAX - d) / 10 {
            return None;
        }
        total = 10 * total + d;
        i += 1;
    }
    proof {
        assert(body.take(n - start) =~= body);
    }
    Some(total)
}

/// The character of the decimal digit `d`.
pub open spec fn digit_char(d: int) -> char {
    (d + '0' as int) as char
}

/// The number `n` written in base ten.
pub open spec fn decimal(n: nat) -> Seq<char>
    decreases n,
{
    if n < 10 {
        seq![digit_char(n as int)]
    } else {
        decimal(n / 10).push(digit_char(n as int % 10))
    }
}

/// Writes a number in base ten.
pub fn digits(n: usize) -> (v: Vec<char>)
    ensures
        v@ == decimal(n as nat),
    decreases n,
{
    if n < 10 {
        let mut v: Vec<char> = Vec::new();
        v.push((48u8 + n as u8) as char);
        assert(v@ =~= decimal(n as nat));
        v
    } else {
        let mut v = digits(n / 10);
        v.push((48u8 + (n % 10) as u8) as char);
        v
    }
}

} // verus!
