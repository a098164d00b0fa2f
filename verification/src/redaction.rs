//! Redaction: taking access tokens and the secrets of URLs out of a text.
use vstd::prelude::*;
use vstd::string::*;

use crate::text;

verus! {

/// Access tokens: a key of New API or a bearer token.
pub const SECRET_PATTERN: &'static str = "(?i)(bearer\\s+|sk-)[a-z0-9_\\-]{8,}";

/// Secrets in the query part of a URL.
pub const QUERY_PATTERN: &'static str = "(?i)(token|key|secret|authorization)=([^&\\s]+)";

// ---------------------------------------------------------------------------
// What the patterns match
// ---------------------------------------------------------------------------
/// What is looked for.
pub enum Secret {
    /// `SECRET_PATTERN`: a mark, then at least eight characters of a token.
    Token,
    /// `QUERY_PATTERN`: the name of a secret and `=`, then its value.
    Value,
}

/// Whether `c` is `letter`, in whatever case: Unicode has two letters more that fold
/// to ASCII letters, the long s and the sign of the Kelvin.
pub open spec fn same_letter(c: char, letter: char) -> bool {
    ||| c == letter
    ||| 'A' <= c <= 'Z' && c as int + 32 == letter as int
    ||| c == '\u{17f}' && letter == 's'
    ||| c == '\u{212a}' && letter == 'k'
}

/// Whether `word` stands in `s` at `at`, in whatever case.
pub open spec fn spells(s: Seq<char>, at: int, word: Seq<char>) -> bool {
    &&& 0 <= at
    &&& at + word.len() <= s.len()
    &&& forall|i: int| 0 <= i < word.len() ==> same_letter(s[at + i], #[trigger] word[i])
}

/// Whether a token may hold `c`.
pub open spec fn token_char(c: char) -> bool {
    ||| 'a' <= c <= 'z'
    ||| 'A' <= c <= 'Z'
    ||| '0' <= c <= '9'
    ||| c == '_'
    ||| c == '-'
    ||| c == '\u{17f}'
    ||| c == '\u{212a}'
}

/// Whether the value of a secret may hold `c`.
pub open spec fn value_char(c: char) -> bool {
    c != '&' && !text::white_space(c)
}

/// Where the run of characters with `f` that begins at `at` ends.
pub open spec fn run_end(s: Seq<char>, at: int, f: spec_fn(char) -> bool) -> int
    decreases s.len() - at,
{
    if 0 <= at < s.len() && f(s[at]) {
        run_end(s, at + 1, f)
    } else {
        at
    }
}

pub open spec fn sk_mark() -> Seq<char> {
    seq!['s', 'k', '-']
}

pub open spec fn bearer_mark() -> Seq<char> {
    seq!['b', 'e', 'a', 'r', 'e', 'r']
}

pub open spec fn token_name() -> Seq<char> {
    seq!['t', 'o', 'k', 'e', 'n', '=']
}

pub open spec fn key_name() -> Seq<char> {
    seq!['k', 'e', 'y', '=']
}

pub open spec fn secret_name() -> Seq<char> {
    seq!['s', 'e', 'c', 'r', 'e', 't', '=']
}

pub open spec fn authorization_name() -> Seq<char> {
    seq!['a', 'u', 't', 'h', 'o', 'r', 'i', 'z', 'a', 't', 'i', 'o', 'n', '=']
}

/// Where the part of a match at `at` ends that is kept: the mark of a token with its
/// white space, or the name of a secret with its `=`; `at` where there is none.
pub open spec fn kept_end(secret: Secret, s: Seq<char>, at: int) -> int {
    match secret {
        Secret::Token => if spells(s, at, sk_mark()) {
            at + 3
        } else if spells(s, at, bearer_mark()) && run_end(
            s,
            at + 6,
            |c: char| text::white_space(c),
        ) > at + 6 {
            run_end(s, at + 6, |c: char| text::white_space(c))
        } else {
            at
        },
        Secret::Value => if spells(s, at, token_name()) {
            at + 6
        } else if spells(s, at, key_name()) {
            at + 4
        } else if spells(s, at, secret_name()) {
            at + 7
        } else if spells(s, at, authorization_name()) {
            at + 14
        } else {
            at
        },
    }
}

/// Where the part of a match at `at` ends that is replaced.
pub open spec fn secret_end(secret: Secret, s: Seq<char>, at: int) -> int {
    match secret {
        Secret::Token => run_end(s, kept_end(secret, s, at), |c: char| token_char(c)),
        Secret::Value => run_end(s, kept_end(secret, s, at), |c: char| value_char(c)),
    }
}

/// Whether there is a match at `at`.
pub open spec fn is_match(secret: Secret, s: Seq<char>, at: int) -> bool {
    let kept = kept_end(secret, s, at);
    &&& kept > at
    &&& secret_end(secret, s, at) >= kept + match secret {
        Secret::Token => 8int,
        Secret::Value => 1int,
    }
}

/// What stands in the place of a secret.
pub open spec fn blot() -> Seq<char> {
    seq!['[', 'R', 'E', 'D', 'A', 'C', 'T', 'E', 'D', ']']
}

/// The text of `s` from `at` on with every secret replaced, match by match.
pub open spec fn blotted(secret: Secret, s: Seq<char>, at: int) -> Seq<char>
    decreases s.len() - at,
{
    if !(0 <= at < s.len()) {
        Seq::empty()
    } else if is_match(secret, s, at) && secret_end(secret, s, at) <= s.len() {
        s.subrange(at, kept_end(secret, s, at)) + blot() + blotted(
            secret,
            s,
            secret_end(secret, s, at),
        )
    } else {
        seq![s[at]] + blotted(secret, s, at + 1)
    }
}

/// Replaces the matches of one of the two patterns with `regex::Regex::replace_all`,
/// after `regex::Regex::new` has compiled it: from the left, each match is replaced by
/// what its first group holds and the rest of `replacement`, and what is not matched
/// stays.
#[verifier::external_body]
fn replace_matches(pattern: &str, value: &str, replacement: &str) -> (r: String)
    requires
        (pattern@ == SECRET_PATTERN@ && replacement@ == "$1[REDACTED]"@) || (pattern@
            == QUERY_PATTERN@ && replacement@ == "$1=[REDACTED]"@),
    ensures
        pattern@ == SECRET_PATTERN@ ==> r@ == blotted(Secret::Token, value@, 0),
        pattern@ == QUERY_PATTERN@ ==> r@ == blotted(Secret::Value, value@, 0),
{
    regex::Regex::new(pattern).unwrap().replace_all(value, replacement).into_owned()
}

/// `value` with its access tokens and the secrets of its URLs replaced.
pub open spec fn without_secrets(value: Seq<char>) -> Seq<char> {
    blotted(Secret::Value, blotted(Secret::Token, value, 0), 0)
}

/// Replaces the access tokens and the secrets of the URLs in `value`.
pub fn blot_secrets(value: &str) -> (r: String)
    ensures
        r@ == without_secrets(value@),
{
    let tokens_blotted = replace_matches(SECRET_PATTERN, value, "$1[REDACTED]");
    replace_matches(QUERY_PATTERN, tokens_blotted.as_str(), "$1=[REDACTED]")
}

// ---------------------------------------------------------------------------
// Runs and words
// ---------------------------------------------------------------------------
proof fn run_end_is(s: Seq<char>, at: int, f: spec_fn(char) -> bool)
    requires
        0 <= at <= s.len(),
    ensures
        at <= run_end(s, at, f) <= s.len(),
        forall|k: int| at <= k < run_end(s, at, f) ==> f(#[trigger] s[k]),
        run_end(s, at, f) < s.len() ==> !f(s[run_end(s, at, f)]),
    decreases s.len() - at,
{
    if at < s.len() && f(s[at]) {
        run_end_is(s, at + 1, f);
    }
}

proof fn run_ends_at(s: Seq<char>, at: int, f: spec_fn(char) -> bool, end: int)
    requires
        0 <= at <= end <= s.len(),
        forall|k: int| at <= k < end ==> f(#[trigger] s[k]),
        end < s.len() ==> !f(s[end]),
    ensures
        run_end(s, at, f) == end,
{
    run_end_is(s, at, f);
    let r = run_end(s, at, f);
    if r < end {
        assert(f(s[r]));
    } else if end < r {
        assert(f(s[end]));
    }
}

proof fn run_reaches(s: Seq<char>, at: int, f: spec_fn(char) -> bool, end: int)
    requires
        0 <= at <= end <= s.len(),
        forall|k: int| at <= k < end ==> f(#[trigger] s[k]),
    ensures
        run_end(s, at, f) >= end,
{
    run_end_is(s, at, f);
    let r = run_end(s, at, f);
    if r < end {
        assert(f(s[r]));
    }
}

/// A word that stands in one text stands in another that has the same characters there.
proof fn word_carries(s: Seq<char>, i: int, t: Seq<char>, j: int, n: int, word: Seq<char>)
    requires
        0 <= i,
        0 <= j,
        0 <= n,
        i + n <= s.len(),
        j + n <= t.len(),
        forall|k: int| 0 <= k < n ==> s[i + k] == #[trigger] t[j + k],
        word.len() <= n,
    ensures
        spells(s, i, word) == spells(t, j, word),
{
    assert forall|k: int| 0 <= k < word.len() implies same_letter(
        s[i + k],
        #[trigger] word[k],
    ) == same_letter(t[j + k], word[k]) by {
        assert(s[i + k] == t[j + k]);
    }
    if spells(s, i, word) {
        assert forall|k: int| 0 <= k < word.len() implies same_letter(
            t[j + k],
            #[trigger] word[k],
        ) by {
            assert(same_letter(s[i + k], word[k]));
        }
    }
    if spells(t, j, word) {
        assert forall|k: int| 0 <= k < word.len() implies same_letter(
            s[i + k],
            #[trigger] word[k],
        ) by {
            assert(same_letter(t[j + k], word[k]));
        }
    }
}

proof fn token_mark_is(s: Seq<char>, at: int)
    requires
        0 <= at,
        kept_end(Secret::Token, s, at) > at,
    ensures
        at + 3 <= kept_end(Secret::Token, s, at) <= s.len(),
        forall|k: int| at <= k < kept_end(Secret::Token, s, at) ==> #[trigger] s[k] != '[',
        kept_end(Secret::Token, s, at) == at + 3 || forall|k: int|
            at + 6 <= k < kept_end(Secret::Token, s, at) ==> text::white_space(#[trigger] s[k]),
        same_letter(s[at], 's') || same_letter(s[at], 'b'),
{
    let kept = kept_end(Secret::Token, s, at);
    let word = if spells(s, at, sk_mark()) {
        sk_mark()
    } else {
        bearer_mark()
    };
    assert(same_letter(s[at + 0], word[0]));
    if !spells(s, at, sk_mark()) {
        run_end_is(s, at + 6, |c: char| text::white_space(c));
    }
    assert forall|k: int| at <= k < kept implies #[trigger] s[k] != '[' by {
        if k < at + word.len() {
            assert(same_letter(s[at + (k - at)], word[k - at]));
        } else {
            assert(text::white_space(s[k]));
        }
    }
}

spec fn begins_like_a_name(s: Seq<char>, at: int) -> bool {
    ||| same_letter(s[at], 't') && same_letter(s[at + 1], 'o')
    ||| same_letter(s[at], 'k')
    ||| same_letter(s[at], 's')
    ||| same_letter(s[at], 'a') && same_letter(s[at + 1], 'u')
}

proof fn value_name_is(s: Seq<char>, at: int)
    requires
        0 <= at,
        kept_end(Secret::Value, s, at) > at,
    ensures
        at + 4 <= kept_end(Secret::Value, s, at) <= s.len(),
        forall|k: int| at <= k < kept_end(Secret::Value, s, at) ==> #[trigger] s[k] != '[',
        forall|k: int| at <= k < kept_end(Secret::Value, s, at) - 1 ==> #[trigger] s[k] != '=',
        s[kept_end(Secret::Value, s, at) - 1] == '=',
        begins_like_a_name(s, at),
{
    let kept = kept_end(Secret::Value, s, at);
    let word = if spells(s, at, token_name()) {
        token_name()
    } else if spells(s, at, key_name()) {
        key_name()
    } else if spells(s, at, secret_name()) {
        secret_name()
    } else {
        authorization_name()
    };
    assert(kept == at + word.len());
    assert(same_letter(s[at + 0], word[0]));
    assert(same_letter(s[at + 1], word[1]));
    assert(same_letter(s[at + (word.len() - 1)], word[word.len() - 1]));
    assert forall|k: int| at <= k < kept implies #[trigger] s[k] != '[' && (k < kept - 1 ==> s[k]
        != '=') by {
        assert(same_letter(s[at + (k - at)], word[k - at]));
    }
}

/// The name of a secret tells which one it is.
proof fn name_decides(s: Seq<char>, at: int)
    ensures
        spells(s, at, token_name()) ==> kept_end(Secret::Value, s, at) == at + 6,
        spells(s, at, key_name()) ==> kept_end(Secret::Value, s, at) == at + 4,
        spells(s, at, secret_name()) ==> kept_end(Secret::Value, s, at) == at + 7,
        spells(s, at, authorization_name()) ==> kept_end(Secret::Value, s, at) == at + 14,
{
    if spells(s, at, token_name()) {
        assert(same_letter(s[at + 0], token_name()[0]));
    }
    if spells(s, at, key_name()) {
        assert(same_letter(s[at + 0], key_name()[0]));
    }
    if spells(s, at, secret_name()) {
        assert(same_letter(s[at + 0], secret_name()[0]));
    }
    if spells(s, at, authorization_name()) {
        assert(same_letter(s[at + 0], authorization_name()[0]));
    }
}

/// Two texts have `n` characters in common, from `i` and from `j` on.
spec fn shares(s: Seq<char>, i: int, t: Seq<char>, j: int, n: int) -> bool {
    &&& 0 <= i
    &&& 0 <= j
    &&& 0 <= n
    &&& i + n <= s.len()
    &&& j + n <= t.len()
    &&& forall|k: int| 0 <= k < n ==> s[i + k] == #[trigger] t[j + k]
}

/// A token in one text is a token in another that shares its characters with it up to
/// a bracket or the end.
proof fn token_carries(s: Seq<char>, i: int, t: Seq<char>, j: int, n: int)
    requires
        shares(s, i, t, j, n),
        j + n == t.len() || t[j + n] == '[',
        is_match(Secret::Token, t, j),
    ensures
        is_match(Secret::Token, s, i),
{
    let d = i - j;
    let kept = kept_end(Secret::Token, t, j);
    token_mark_is(t, j);
    run_end_is(t, kept, |c: char| token_char(c));
    let end = kept + 8;
    if end > j + n {
        if j + n < kept {
            assert(t[j + n] != '[');
        } else {
            assert(token_char(t[j + n]));
        }
    }
    assert(end <= j + n);
    assert forall|k: int| j <= k < j + n implies s[k + d] == #[trigger] t[k] by {
        assert(s[i + (k - j)] == t[j + (k - j)]);
    }
    word_carries(s, i, t, j, n, sk_mark());
    word_carries(s, i, t, j, n, bearer_mark());
    if !spells(t, j, sk_mark()) {
        run_end_is(t, j + 6, |c: char| text::white_space(c));
        assert forall|k: int| i + 6 <= k < kept + d implies (|c: char| text::white_space(c))(
            #[trigger] s[k],
        ) by {
            assert(s[(k - d) + d] == t[k - d]);
            assert(text::white_space(t[k - d]));
        }
        assert(s[kept + d] == t[kept]);
        assert(token_char(t[kept]));
        run_ends_at(s, i + 6, |c: char| text::white_space(c), kept + d);
    }
    assert(kept_end(Secret::Token, s, i) == kept + d);
    assert forall|k: int| kept + d <= k < end + d implies (|c: char| token_char(c))(
        #[trigger] s[k],
    ) by {
        assert(s[(k - d) + d] == t[k - d]);
        assert(token_char(t[k - d]));
    }
    run_reaches(s, kept + d, |c: char| token_char(c), end + d);
}

/// The name of a secret in one text is one in another that shares its characters.
proof fn name_carries(s: Seq<char>, i: int, t: Seq<char>, j: int, n: int)
    requires
        shares(s, i, t, j, n),
        kept_end(Secret::Value, t, j) > j,
        kept_end(Secret::Value, t, j) <= j + n,
    ensures
        kept_end(Secret::Value, s, i) - i == kept_end(Secret::Value, t, j) - j,
{
    let word = if spells(t, j, token_name()) {
        token_name()
    } else if spells(t, j, key_name()) {
        key_name()
    } else if spells(t, j, secret_name()) {
        secret_name()
    } else {
        authorization_name()
    };
    word_carries(s, i, t, j, n, word);
    name_decides(s, i);
    name_decides(t, j);
}

// ---------------------------------------------------------------------------
// What is left after replacing
// ---------------------------------------------------------------------------
/// Whether there is no access token in `s`.
pub open spec fn token_free(s: Seq<char>) -> bool {
    forall|at: int| 0 <= at < s.len() ==> !#[trigger] is_match(Secret::Token, s, at)
}

/// Whether the value of the secret at `at` is nothing but `[REDACTED]`.
pub open spec fn is_blotted(s: Seq<char>, at: int) -> bool {
    let kept = kept_end(Secret::Value, s, at);
    &&& kept + 10 <= s.len()
    &&& s.subrange(kept, kept + 10) == blot()
    &&& secret_end(Secret::Value, s, at) == kept + 10
}

/// Whether the value of every secret in `s` is nothing but `[REDACTED]`.
pub open spec fn only_blots(s: Seq<char>) -> bool {
    forall|at: int|
        0 <= at < s.len() && #[trigger] is_match(Secret::Value, s, at) ==> is_blotted(s, at)
}

proof fn match_is(secret: Secret, s: Seq<char>, at: int)
    requires
        0 <= at,
        is_match(secret, s, at),
    ensures
        at + 3 <= kept_end(secret, s, at) < secret_end(secret, s, at) <= s.len(),
        forall|k: int| at <= k < kept_end(secret, s, at) ==> #[trigger] s[k] != '[',
{
    match secret {
        Secret::Token => {
            token_mark_is(s, at);
            run_end_is(s, kept_end(secret, s, at), |c: char| token_char(c));
        },
        Secret::Value => {
            value_name_is(s, at);
            run_end_is(s, kept_end(secret, s, at), |c: char| value_char(c));
        },
    }
}

/// How many characters from `at` on stay before the first secret that is replaced.
spec fn unblotted(secret: Secret, s: Seq<char>, at: int) -> int
    decreases s.len() - at,
{
    if !(0 <= at < s.len()) {
        0
    } else if is_match(secret, s, at) {
        kept_end(secret, s, at) - at
    } else {
        1 + unblotted(secret, s, at + 1)
    }
}

spec fn has_blot(t: Seq<char>, at: int) -> bool {
    0 <= at && at + 10 <= t.len() && t.subrange(at, at + 10) == blot()
}

proof fn blotted_begins(secret: Secret, s: Seq<char>, at: int)
    requires
        0 <= at <= s.len(),
    ensures
        shares(s, at, blotted(secret, s, at), 0, unblotted(secret, s, at)),
        at < s.len() ==> unblotted(secret, s, at) >= 1,
        (unblotted(secret, s, at) == blotted(secret, s, at).len() && at + unblotted(secret, s, at)
            == s.len()) || has_blot(blotted(secret, s, at), unblotted(secret, s, at)),
        secret is Value && unblotted(secret, s, at) + 10 < blotted(secret, s, at).len()
            ==> !value_char(blotted(secret, s, at)[unblotted(secret, s, at) + 10]),
    decreases s.len() - at,
{
    let t = blotted(secret, s, at);
    let n = unblotted(secret, s, at);
    if at < s.len() {
        if is_match(secret, s, at) {
            match_is(secret, s, at);
            let kept = kept_end(secret, s, at);
            let end = secret_end(secret, s, at);
            let rest = blotted(secret, s, end);
            assert(t == s.subrange(at, kept) + blot() + rest);
            assert(t.subrange(n, n + 10) =~= blot());
            assert forall|k: int| 0 <= k < n implies s[at + k] == #[trigger] t[0 + k] by {}
            blotted_begins(secret, s, end);
            if secret is Value {
                run_end_is(s, kept, |c: char| value_char(c));
                if n + 10 < t.len() {
                    assert(end < s.len());
                    assert(s[end + 0int] == rest[0int + 0int]);
                    assert(t[n + 10] == rest[0]);
                }
            }
        } else {
            blotted_begins(secret, s, at + 1);
            let rest = blotted(secret, s, at + 1);
            let m = unblotted(secret, s, at + 1);
            assert(t == seq![s[at]] + rest);
            assert forall|k: int| 0 <= k < n implies s[at + k] == #[trigger] t[0 + k] by {
                if k > 0 {
                    assert(s[at + 1 + (k - 1)] == rest[0 + (k - 1)]);
                }
            }
            if has_blot(rest, m) {
                assert(t.subrange(n, n + 10) =~= rest.subrange(m, m + 10));
            }
        }
    }
}

proof fn no_match_in_a_blot(secret: Secret, t: Seq<char>, at: int, j: int)
    requires
        has_blot(t, at),
        at <= j < at + 10,
    ensures
        !is_match(secret, t, j),
{
    assert(t.subrange(at, at + 10)[j - at] == blot()[j - at]);
    if is_match(secret, t, j) {
        match secret {
            Secret::Token => {
                token_mark_is(t, j);
            },
            Secret::Value => {
                value_name_is(t, j);
                if j + 1 < at + 10 {
                    assert(t.subrange(at, at + 10)[j + 1 - at] == blot()[j + 1 - at]);
                }
            },
        }
    }
}

/// A token behind `head` is a token of what follows.
proof fn token_behind(head: Seq<char>, rest: Seq<char>, j: int)
    requires
        head.len() <= j < head.len() + rest.len(),
        is_match(Secret::Token, head + rest, j),
    ensures
        is_match(Secret::Token, rest, j - head.len()),
{
    let t = head + rest;
    let n = t.len() - j;
    assert forall|k: int| 0 <= k < n implies rest[j - head.len() + k] == #[trigger] t[j + k] by {}
    token_carries(rest, j - head.len(), t, j, n);
}

proof fn tokens_are_blotted(s: Seq<char>, at: int)
    requires
        0 <= at <= s.len(),
    ensures
        token_free(blotted(Secret::Token, s, at)),
    decreases s.len() - at,
{
    let t = blotted(Secret::Token, s, at);
    if at < s.len() {
        blotted_begins(Secret::Token, s, at);
        if is_match(Secret::Token, s, at) {
            match_is(Secret::Token, s, at);
            token_mark_is(s, at);
            let kept = kept_end(Secret::Token, s, at);
            let end = secret_end(Secret::Token, s, at);
            let rest = blotted(Secret::Token, s, end);
            tokens_are_blotted(s, end);
            let head = s.subrange(at, kept) + blot();
            assert(t == head + rest);
            let n = kept - at;
            assert(t.subrange(n, n + 10) =~= blot());
            assert forall|j: int| 0 <= j < t.len() implies !#[trigger] is_match(
                Secret::Token,
                t,
                j,
            ) by {
                if is_match(Secret::Token, t, j) {
                    if j < n {
                        match_is(Secret::Token, t, j);
                        let from = kept_end(Secret::Token, t, j);
                        run_end_is(t, from, |c: char| token_char(c));
                        assert(t[n] == blot()[0]);
                        if from > n {
                            assert(t[n] != '[');
                        } else if from + 7 >= n {
                            assert(token_char(t[n]));
                        } else {
                            assert(token_char(t[from + 7]));
                            assert(t[from + 7] == s[at + from + 7]);
                        }
                    } else if j < n + 10 {
                        no_match_in_a_blot(Secret::Token, t, n, j);
                    } else {
                        token_behind(head, rest, j);
                    }
                }
            }
        } else {
            let rest = blotted(Secret::Token, s, at + 1);
            tokens_are_blotted(s, at + 1);
            let head = seq![s[at]];
            assert(t == head + rest);
            assert forall|j: int| 0 <= j < t.len() implies !#[trigger] is_match(
                Secret::Token,
                t,
                j,
            ) by {
                if is_match(Secret::Token, t, j) {
                    if j == 0 {
                        let n = unblotted(Secret::Token, s, at);
                        if n < t.len() {
                            assert(t.subrange(n, n + 10)[0] == blot()[0]);
                        }
                        token_carries(s, at, t, 0, n);
                    } else {
                        token_behind(head, rest, j);
                    }
                }
            }
        }
    }
}

proof fn tokens_do_not_come_back(s: Seq<char>, at: int)
    requires
        0 <= at <= s.len(),
        token_free(s),
    ensures
        token_free(blotted(Secret::Value, s, at)),
    decreases s.len() - at,
{
    let t = blotted(Secret::Value, s, at);
    if at < s.len() {
        blotted_begins(Secret::Value, s, at);
        let n = unblotted(Secret::Value, s, at);
        if n < t.len() {
            assert(t.subrange(n, n + 10)[0] == blot()[0]);
        }
        let found = is_match(Secret::Value, s, at);
        if found {
            match_is(Secret::Value, s, at);
        }
        let next = if found {
            secret_end(Secret::Value, s, at)
        } else {
            at + 1
        };
        let rest = blotted(Secret::Value, s, next);
        let head = if found {
            s.subrange(at, kept_end(Secret::Value, s, at)) + blot()
        } else {
            seq![s[at]]
        };
        assert(t == head + rest);
        tokens_do_not_come_back(s, next);
        assert forall|j: int| 0 <= j < t.len() implies !#[trigger] is_match(
            Secret::Token,
            t,
            j,
        ) by {
            if is_match(Secret::Token, t, j) {
                if j >= head.len() {
                    token_behind(head, rest, j);
                } else if j < n {
                    assert forall|k: int| 0 <= k < n - j implies s[at + j + k] == #[trigger] t[j
                        + k] by {
                        assert(s[at + (j + k)] == t[0 + (j + k)]);
                    }
                    token_carries(s, at + j, t, j, n - j);
                } else {
                    no_match_in_a_blot(Secret::Token, t, n, j);
                }
            }
        }
    }
}

/// A secret behind `head` is a secret of what follows, with its ends.
proof fn value_behind(head: Seq<char>, rest: Seq<char>, j: int)
    requires
        head.len() <= j < head.len() + rest.len(),
        is_match(Secret::Value, head + rest, j),
    ensures
        is_match(Secret::Value, rest, j - head.len()),
        kept_end(Secret::Value, rest, j - head.len()) == kept_end(Secret::Value, head + rest, j)
            - head.len(),
        secret_end(Secret::Value, rest, j - head.len()) == secret_end(
            Secret::Value,
            head + rest,
            j,
        ) - head.len(),
{
    let t = head + rest;
    let h = head.len() as int;
    let n = t.len() - j;
    match_is(Secret::Value, t, j);
    assert forall|k: int| 0 <= k < n implies rest[j - h + k] == #[trigger] t[j + k] by {}
    name_carries(rest, j - h, t, j, n);
    let kept = kept_end(Secret::Value, t, j);
    let end = secret_end(Secret::Value, t, j);
    let f = |c: char| value_char(c);
    run_end_is(t, kept, f);
    assert forall|k: int| kept - h <= k < end - h implies f(#[trigger] rest[k]) by {
        assert(f(t[k + h]));
    }
    run_ends_at(rest, kept - h, f, end - h);
}

/// Where a secret is named right before a blot that ends a run, its value is that
/// blot.
proof fn blot_is_the_value(t: Seq<char>, j: int, n: int)
    requires
        0 <= j,
        has_blot(t, n),
        kept_end(Secret::Value, t, j) == n,
        n + 10 < t.len() ==> !value_char(t[n + 10]),
    ensures
        is_blotted(t, j),
{
    let f = |c: char| value_char(c);
    assert forall|k: int| n <= k < n + 10 implies f(#[trigger] t[k]) by {
        assert(t.subrange(n, n + 10)[k - n] == blot()[k - n]);
    }
    run_ends_at(t, n, f, n + 10);
}

proof fn value_behind_is_blotted(head: Seq<char>, rest: Seq<char>, j: int)
    requires
        only_blots(rest),
        head.len() <= j < head.len() + rest.len(),
        is_match(Secret::Value, head + rest, j),
    ensures
        is_blotted(head + rest, j),
{
    let t = head + rest;
    let h = head.len() as int;
    let kept = kept_end(Secret::Value, t, j);
    value_behind(head, rest, j);
    assert(is_blotted(rest, j - h));
    assert(t.subrange(kept, kept + 10) =~= rest.subrange(kept - h, kept - h + 10));
}

/// A secret that begins in the name of a replaced one is that one: only its last
/// character is `=`.
proof fn value_in_a_name_is_blotted(s: Seq<char>, at: int, j: int)
    requires
        0 <= at < s.len(),
        is_match(Secret::Value, s, at),
        0 <= j < kept_end(Secret::Value, s, at) - at,
        is_match(Secret::Value, blotted(Secret::Value, s, at), j),
    ensures
        is_blotted(blotted(Secret::Value, s, at), j),
{
    let t = blotted(Secret::Value, s, at);
    let n = unblotted(Secret::Value, s, at);
    blotted_begins(Secret::Value, s, at);
    match_is(Secret::Value, s, at);
    value_name_is(s, at);
    match_is(Secret::Value, t, j);
    value_name_is(t, j);
    let kept = kept_end(Secret::Value, t, j);
    assert(has_blot(t, n));
    assert(t.subrange(n, n + 10)[0] == blot()[0]);
    if kept > n {
        assert(t[n] != '[');
    }
    if kept < n {
        assert(s[at + (kept - 1)] == t[0 + (kept - 1)]);
    }
    blot_is_the_value(t, j, n);
}

/// Where nothing was replaced at `at`, a secret that stands there now has a blot for
/// its value.
proof fn value_at_the_start_is_blotted(s: Seq<char>, at: int)
    requires
        0 <= at < s.len(),
        !is_match(Secret::Value, s, at),
        is_match(Secret::Value, blotted(Secret::Value, s, at), 0),
    ensures
        is_blotted(blotted(Secret::Value, s, at), 0),
{
    let t = blotted(Secret::Value, s, at);
    let n = unblotted(Secret::Value, s, at);
    blotted_begins(Secret::Value, s, at);
    match_is(Secret::Value, t, 0);
    let kept = kept_end(Secret::Value, t, 0);
    if n < t.len() {
        assert(t.subrange(n, n + 10)[0] == blot()[0]);
        if kept > n {
            assert(t[n] != '[');
        }
    }
    if kept == n {
        blot_is_the_value(t, 0, n);
    } else {
        let f = |c: char| value_char(c);
        name_carries(s, at, t, 0, n);
        run_end_is(t, kept, f);
        assert(f(t[kept]));
        assert(s[at + kept] == t[0 + kept]);
        run_reaches(s, at + kept, f, at + kept + 1);
    }
}

proof fn values_are_blotted(s: Seq<char>, at: int)
    requires
        0 <= at <= s.len(),
    ensures
        only_blots(blotted(Secret::Value, s, at)),
    decreases s.len() - at, 1int,
{
    let t = blotted(Secret::Value, s, at);
    if at < s.len() {
        if is_match(Secret::Value, s, at) {
            values_are_blotted_behind(s, at);
        } else {
            values_are_blotted(s, at + 1);
            let head = seq![s[at]];
            let rest = blotted(Secret::Value, s, at + 1);
            assert(t == head + rest);
            assert forall|j: int| 0 <= j < t.len() && #[trigger] is_match(
                Secret::Value,
                t,
                j,
            ) implies is_blotted(t, j) by {
                if j == 0 {
                    value_at_the_start_is_blotted(s, at);
                } else {
                    value_behind_is_blotted(head, rest, j);
                }
            }
        }
    }
}

proof fn values_are_blotted_behind(s: Seq<char>, at: int)
    requires
        0 <= at < s.len(),
        is_match(Secret::Value, s, at),
    ensures
        only_blots(blotted(Secret::Value, s, at)),
    decreases s.len() - at, 0int,
{
    let t = blotted(Secret::Value, s, at);
    match_is(Secret::Value, s, at);
    let n = kept_end(Secret::Value, s, at) - at;
    let end = secret_end(Secret::Value, s, at);
    values_are_blotted(s, end);
    let head = s.subrange(at, at + n) + blot();
    let rest = blotted(Secret::Value, s, end);
    assert(t == head + rest);
    assert(t.subrange(n, n + 10) =~= blot());
    assert forall|j: int| 0 <= j < t.len() && #[trigger] is_match(
        Secret::Value,
        t,
        j,
    ) implies is_blotted(t, j) by {
        if j < n {
            value_in_a_name_is_blotted(s, at, j);
        } else if j < n + 10 {
            no_match_in_a_blot(Secret::Value, t, n, j);
        } else {
            value_behind_is_blotted(head, rest, j);
        }
    }
}

// ---------------------------------------------------------------------------
// Replacing a second time
// ---------------------------------------------------------------------------
/// Whether the value of the secret at `at` is the beginning of `[REDACTED]` with
/// which `s` ends.
pub open spec fn is_cut_blot(s: Seq<char>, at: int) -> bool {
    let kept = kept_end(Secret::Value, s, at);
    &&& s.len() <= kept + 10
    &&& s.skip(kept) == blot().take(s.len() - kept)
    &&& secret_end(Secret::Value, s, at) == s.len()
}

/// Whether the value of every secret in `s` is nothing but `[REDACTED]`, cut short
/// only at the end of `s`.
pub open spec fn nearly_only_blots(s: Seq<char>) -> bool {
    forall|at: int|
        0 <= at < s.len() && #[trigger] is_match(Secret::Value, s, at) ==> is_blotted(s, at)
            || is_cut_blot(s, at)
}

proof fn nothing_to_blot(s: Seq<char>, at: int)
    requires
        0 <= at <= s.len(),
        token_free(s),
    ensures
        blotted(Secret::Token, s, at) == s.skip(at),
    decreases s.len() - at,
{
    if at < s.len() {
        nothing_to_blot(s, at + 1);
        assert(seq![s[at]] + s.skip(at + 1) =~= s.skip(at));
    } else {
        assert(s.skip(at) =~= Seq::<char>::empty());
    }
}

proof fn beginning_is_token_free(s: Seq<char>, n: int)
    requires
        0 <= n <= s.len(),
        token_free(s),
    ensures
        token_free(s.take(n)),
{
    let t = s.take(n);
    assert forall|j: int| 0 <= j < t.len() implies !#[trigger] is_match(Secret::Token, t, j) by {
        if is_match(Secret::Token, t, j) {
            assert forall|k: int| 0 <= k < n - j implies s[j + k] == #[trigger] t[j + k] by {}
            token_carries(s, j, t, j, n - j);
        }
    }
}

proof fn beginning_is_nearly_blotted(s: Seq<char>, n: int)
    requires
        0 <= n <= s.len(),
        only_blots(s),
    ensures
        nearly_only_blots(s.take(n)),
{
    let t = s.take(n);
    let f = |c: char| value_char(c);
    assert forall|j: int| 0 <= j < t.len() && #[trigger] is_match(
        Secret::Value,
        t,
        j,
    ) implies is_blotted(t, j) || is_cut_blot(t, j) by {
        match_is(Secret::Value, t, j);
        let kept = kept_end(Secret::Value, t, j);
        assert forall|k: int| 0 <= k < n - j implies s[j + k] == #[trigger] t[j + k] by {}
        name_carries(s, j, t, j, n - j);
        run_end_is(t, kept, f);
        assert(f(t[kept]));
        run_reaches(s, kept, f, kept + 1);
        assert(is_match(Secret::Value, s, j));
        assert(is_blotted(s, j));
        run_end_is(s, kept, f);
        let end = if kept + 10 <= n {
            kept + 10
        } else {
            n
        };
        assert forall|k: int| kept <= k < end implies f(#[trigger] t[k]) by {
            assert(f(s[k]));
        }
        run_ends_at(t, kept, f, end);
        if kept + 10 <= n {
            assert(t.subrange(kept, kept + 10) =~= s.subrange(kept, kept + 10));
        } else {
            assert forall|k: int| 0 <= k < n - kept implies #[trigger] t.skip(kept)[k]
                == blot().take(n - kept)[k] by {
                assert(s.subrange(kept, kept + 10)[k] == blot()[k]);
            }
            assert(t.skip(kept) =~= blot().take(n - kept));
        }
    }
}

proof fn blotting_again_begins_alike(s: Seq<char>, at: int)
    requires
        0 <= at <= s.len(),
        nearly_only_blots(s),
    ensures
        blotted(Secret::Value, s, at).len() >= s.len() - at,
        blotted(Secret::Value, s, at).take(s.len() - at) == s.skip(at),
        only_blots(s) ==> blotted(Secret::Value, s, at) == s.skip(at),
    decreases s.len() - at,
{
    let t = blotted(Secret::Value, s, at);
    if at == s.len() {
        assert(t.take(0) =~= s.skip(at));
    } else if is_match(Secret::Value, s, at) {
        match_is(Secret::Value, s, at);
        let kept = kept_end(Secret::Value, s, at);
        let end = secret_end(Secret::Value, s, at);
        blotting_again_begins_alike(s, end);
        let rest = blotted(Secret::Value, s, end);
        assert(t == s.subrange(at, kept) + blot() + rest);
        assert forall|k: int| 0 <= k < s.len() - at implies #[trigger] t[k] == s.skip(at)[k] by {
            if k >= kept - at {
                if is_blotted(s, at) {
                    if k < kept - at + 10 {
                        assert(s.subrange(kept, kept + 10)[k - (kept - at)] == blot()[k - (kept
                            - at)]);
                    } else {
                        let m = k - (kept - at) - 10;
                        assert(rest.take(s.len() - end)[m] == s.skip(end)[m]);
                    }
                } else {
                    assert(s.skip(kept)[k - (kept - at)] == blot().take(s.len() - kept)[k - (kept
                        - at)]);
                }
            }
        }
        assert(t.take(s.len() - at) =~= s.skip(at));
        if only_blots(s) {
            assert(t =~= s.skip(at));
        }
    } else {
        blotting_again_begins_alike(s, at + 1);
        let rest = blotted(Secret::Value, s, at + 1);
        assert(t == seq![s[at]] + rest);
        assert(t.take(s.len() - at) =~= seq![s[at]] + rest.take(s.len() - at - 1));
        assert(seq![s[at]] + s.skip(at + 1) =~= s.skip(at));
    }
}

// ---------------------------------------------------------------------------
// Laws
// ---------------------------------------------------------------------------
/// Where secrets are replaced and the text is then cut to its first `n` characters, no
/// access token is left, the value of every secret is `[REDACTED]`, cut short only at
/// the end, and doing it again changes nothing.
pub proof fn secrets_are_gone(value: Seq<char>, n: nat)
    ensures
        token_free(text::first_chars(without_secrets(value), n as int)),
        nearly_only_blots(text::first_chars(without_secrets(value), n as int)),
        text::first_chars(
            without_secrets(text::first_chars(without_secrets(value), n as int)),
            n as int,
        ) == text::first_chars(without_secrets(value), n as int),
{
    let first = blotted(Secret::Token, value, 0);
    let full = without_secrets(value);
    tokens_are_blotted(value, 0);
    tokens_do_not_come_back(first, 0);
    values_are_blotted(first, 0);
    let m = if n <= full.len() {
        n as int
    } else {
        full.len() as int
    };
    let cut = full.take(m);
    assert(text::first_chars(full, n as int) =~= cut);
    beginning_is_token_free(full, m);
    beginning_is_nearly_blotted(full, m);
    nothing_to_blot(cut, 0);
    assert(cut.skip(0) =~= cut);
    blotting_again_begins_alike(cut, 0);
    let again = without_secrets(cut);
    if m < n {
        assert(cut =~= full);
        assert(again == cut);
    } else {
        assert(again.take(m) == cut);
    }
    assert(text::first_chars(again, n as int) =~= cut);
}

/// A character of an access token.
pub open spec fn is_key_char(c: char) -> bool {
    'a' <= c <= 'z' || 'A' <= c <= 'Z' || '0' <= c <= '9' || c == '_' || c == '-' || c == '\u{17f}'
        || c == '\u{212a}'
}

/// Whether `word`, in small letters, stands in `s` at `at`, in whatever letters; the long
/// s and the sign for Kelvin count as the letters that they look like.
pub open spec fn stands_in_any_case(s: Seq<char>, at: int, word: Seq<char>) -> bool {
    &&& 0 <= at
    &&& at + word.len() <= s.len()
    &&& forall|i: int|
        0 <= i < word.len() ==> s[at + i] == #[trigger] word[i] || ('A' <= s[at + i] <= 'Z' && s[at
            + i] as int + 32 == word[i] as int) || (s[at + i] == '\u{17f}' && word[i] == 's') || (s[
        at + i] == '\u{212a}' && word[i] == 'k')
}

proof fn standing_is_spelling(s: Seq<char>, at: int, word: Seq<char>)
    ensures
        stands_in_any_case(s, at, word) ==> spells(s, at, word),
{
    if stands_in_any_case(s, at, word) {
        assert forall|i: int| 0 <= i < word.len() implies same_letter(
            s[at + i],
            #[trigger] word[i],
        ) by {}
    }
}

/// No key is left: where `sk-` stands, in whatever letters, or `bearer` and white space,
/// one of the eight characters behind it is none of a token.
pub proof fn no_key_is_left(value: Seq<char>, n: nat, at: int, blanks: int)
    requires
        blanks > 0,
    ensures
        ({
            let left = text::first_chars(without_secrets(value), n as int);
            let token = at + 6 + blanks;
            &&& stands_in_any_case(left, at, seq!['s', 'k', '-']) && at + 11 <= left.len()
                ==> exists|k: int| at + 3 <= k < at + 11 && !is_key_char(#[trigger] left[k])
            &&& stands_in_any_case(left, at, seq!['b', 'e', 'a', 'r', 'e', 'r']) && token + 8
                <= left.len() && (forall|k: int|
                at + 6 <= k < token ==> text::white_space(#[trigger] left[k])) ==> exists|k: int|
                token <= k < token + 8 && !is_key_char(#[trigger] left[k])
        }),
{
    secrets_are_gone(value, n);
    let left = text::first_chars(without_secrets(value), n as int);
    let token = at + 6 + blanks;
    let f = |c: char| token_char(c);
    let white = |c: char| text::white_space(c);
    standing_is_spelling(left, at, sk_mark());
    standing_is_spelling(left, at, bearer_mark());
    if stands_in_any_case(left, at, seq!['s', 'k', '-']) && at + 11 <= left.len() && forall|k: int|
        at + 3 <= k < at + 11 ==> is_key_char(#[trigger] left[k]) {
        assert(kept_end(Secret::Token, left, at) == at + 3);
        assert forall|k: int| at + 3 <= k < at + 11 implies f(#[trigger] left[k]) by {}
        run_reaches(left, at + 3, f, at + 11);
        assert(is_match(Secret::Token, left, at));
    }
    if stands_in_any_case(left, at, seq!['b', 'e', 'a', 'r', 'e', 'r']) && token + 8 <= left.len()
        && (forall|k: int| at + 6 <= k < token ==> text::white_space(#[trigger] left[k])) && (
    forall|k: int| token <= k < token + 8 ==> is_key_char(#[trigger] left[k])) {
        assert(bearer_mark()[0] == 'b' && sk_mark()[0] == 's');
        assert(!spells(left, at, sk_mark())) by {
            if spells(left, at, sk_mark()) {
                assert(same_letter(left[at + 0], sk_mark()[0]));
                assert(same_letter(left[at + 0], bearer_mark()[0]));
            }
        }
        assert forall|k: int| at + 6 <= k < token implies white(#[trigger] left[k]) by {}
        assert(is_key_char(left[token]));
        run_ends_at(left, at + 6, white, token);
        assert(kept_end(Secret::Token, left, at) == token);
        assert forall|k: int| token <= k < token + 8 implies f(#[trigger] left[k]) by {}
        run_reaches(left, token, f, token + 8);
        assert(is_match(Secret::Token, left, at));
    }
}

/// Whether this is one of the four names behind which a secret stands.
pub open spec fn is_secret_name(name: Seq<char>) -> bool {
    ||| name == seq!['t', 'o', 'k', 'e', 'n', '=']
    ||| name == seq!['k', 'e', 'y', '=']
    ||| name == seq!['s', 'e', 'c', 'r', 'e', 't', '=']
    ||| name == seq!['a', 'u', 't', 'h', 'o', 'r', 'i', 'z', 'a', 't', 'i', 'o', 'n', '=']
}

proof fn names_are_kept(s: Seq<char>, at: int, name: Seq<char>)
    requires
        is_secret_name(name),
        spells(s, at, name),
    ensures
        kept_end(Secret::Value, s, at) == at + name.len(),
{
    name_decides(s, at);
}

/// No value of a secret is left: behind each of the four names, in whatever letters, there
/// is nothing, white space, `&` or `[REDACTED]`, as far as the text goes.
pub proof fn no_secret_value_is_left(value: Seq<char>, n: nat, at: int, name: Seq<char>, k: int)
    requires
        is_secret_name(name),
        stands_in_any_case(text::first_chars(without_secrets(value), n as int), at, name),
        0 <= k < 10,
        at + name.len() + k < text::first_chars(without_secrets(value), n as int).len(),
        text::first_chars(without_secrets(value), n as int)[at + name.len()] != '&',
        !text::white_space(
            text::first_chars(without_secrets(value), n as int)[at + name.len()],
        ),
    ensures
        text::first_chars(without_secrets(value), n as int)[at + name.len() + k] == seq![
            '[',
            'R',
            'E',
            'D',
            'A',
            'C',
            'T',
            'E',
            'D',
            ']',
        ][k],
{
    secrets_are_gone(value, n);
    let left = text::first_chars(without_secrets(value), n as int);
    standing_is_spelling(left, at, name);
    names_are_kept(left, at, name);
    value_is_blotted(left, at, at + name.len(), k);
}

proof fn value_is_blotted(left: Seq<char>, at: int, end: int, k: int)
    requires
        nearly_only_blots(left),
        0 <= at < end,
        kept_end(Secret::Value, left, at) == end,
        0 <= k < 10,
        end + k < left.len(),
        left[end] != '&',
        !text::white_space(left[end]),
    ensures
        left[end + k] == blot()[k],
{
    let f = |c: char| value_char(c);
    assert forall|j: int| end <= j < end + 1 implies f(#[trigger] left[j]) by {}
    run_reaches(left, end, f, end + 1);
    assert(is_match(Secret::Value, left, at));
    if is_blotted(left, at) {
        assert(left.subrange(end, end + 10)[k] == blot()[k]);
    } else {
        assert(is_cut_blot(left, at));
        assert(left.skip(end)[k] == blot().take(left.len() - end)[k]);
    }
}

/// A text without the signs that mark secrets is left as it is: without `-` and `=`, and
/// without the letter that `bearer` begins with.
pub proof fn plain_text_stays(value: Seq<char>)
    requires
        forall|i: int|
            0 <= i < value.len() ==> #[trigger] value[i] != '-' && value[i] != '=' && value[i]
                != 'b' && value[i] != 'B',
    ensures
        without_secrets(value) == value,
{
    assert forall|at: int| 0 <= at < value.len() implies !#[trigger] is_match(
        Secret::Token,
        value,
        at,
    ) by {
        if spells(value, at, sk_mark()) {
            assert(same_letter(value[at + 2], sk_mark()[2]));
        }
        if spells(value, at, bearer_mark()) {
            assert(same_letter(value[at + 0], bearer_mark()[0]));
        }
    }
    nothing_to_blot(value, 0);
    assert(value.skip(0) =~= value);
    no_value_to_blot(value, 0);
}

proof fn no_value_to_blot(s: Seq<char>, at: int)
    requires
        0 <= at <= s.len(),
        forall|i: int| 0 <= i < s.len() ==> #[trigger] s[i] != '=',
    ensures
        blotted(Secret::Value, s, at) == s.skip(at),
    decreases s.len() - at,
{
    if at < s.len() {
        if is_match(Secret::Value, s, at) {
            value_name_is(s, at);
        }
        no_value_to_blot(s, at + 1);
        assert(seq![s[at]] + s.skip(at + 1) =~= s.skip(at));
    } else {
        assert(s.skip(at) =~= Seq::<char>::empty());
    }
}

/// What stands before the first sign of a secret is left as it is.
pub proof fn beginning_stays(value: Seq<char>, n: int)
    requires
        0 <= n <= value.len(),
        forall|at: int| 0 <= at < n ==> !#[trigger] is_match(Secret::Token, value, at),
    ensures
        blotted(Secret::Token, value, 0) == value.take(n) + blotted(Secret::Token, value, n),
{
    beginning_is_copied(value, 0, n);
    assert(value.subrange(0, n) =~= value.take(n));
}

proof fn beginning_is_copied(s: Seq<char>, at: int, n: int)
    requires
        0 <= at <= n <= s.len(),
        forall|k: int| at <= k < n ==> !#[trigger] is_match(Secret::Token, s, k),
    ensures
        blotted(Secret::Token, s, at) == s.subrange(at, n) + blotted(Secret::Token, s, n),
    decreases n - at,
{
    if at < n {
        beginning_is_copied(s, at + 1, n);
        assert(seq![s[at]] + (s.subrange(at + 1, n) + blotted(Secret::Token, s, n)) =~= s.subrange(
            at,
            n,
        ) + blotted(Secret::Token, s, n));
    } else {
        assert(s.subrange(at, n) + blotted(Secret::Token, s, n) =~= blotted(Secret::Token, s, n));
    }
}

/// A letter or a digit.
pub open spec fn is_plain(c: char) -> bool {
    'a' <= c <= 'z' || 'A' <= c <= 'Z' || '0' <= c <= '9'
}

/// A key of at least eight letters and digits is replaced, with its mark left before it;
/// a shorter one is none and stays.
pub proof fn keys_are_replaced(key: Seq<char>)
    requires
        forall|i: int| 0 <= i < key.len() ==> is_plain(#[trigger] key[i]),
    ensures
        key.len() >= 8 ==> without_secrets(seq!['s', 'k', '-'] + key) == seq!['s', 'k', '-']
            + blot(),
        key.len() < 8 ==> without_secrets(seq!['s', 'k', '-'] + key) == seq!['s', 'k', '-'] + key,
        blot() == seq!['[', 'R', 'E', 'D', 'A', 'C', 'T', 'E', 'D', ']'],
{
    let s = seq!['s', 'k', '-'] + key;
    let n = s.len() as int;
    let f = |c: char| token_char(c);
    assert forall|k: int| 3 <= k < n implies f(#[trigger] s[k]) && is_plain(s[k]) by {
        assert(s[k] == key[k - 3]);
    }
    assert(spells(s, 0, sk_mark())) by {
        assert(s[0] == 's' && s[1] == 'k' && s[2] == '-');
    }
    run_ends_at(s, 3, f, n);
    assert(secret_end(Secret::Token, s, 0) == n);
    if key.len() >= 8 {
        assert(is_match(Secret::Token, s, 0));
        let first = blotted(Secret::Token, s, 0);
        assert(blotted(Secret::Token, s, n) =~= Seq::empty());
        assert(s.subrange(0, 3) =~= seq!['s', 'k', '-']);
        assert(first =~= seq!['s', 'k', '-'] + blot());
        no_value_to_blot(first, 0);
        assert(first.skip(0) =~= first);
    } else {
        assert forall|at: int| 0 <= at < n implies !#[trigger] is_match(Secret::Token, s, at) by {
            if at > 0 {
                no_mark_inside(s, at);
            }
        }
        nothing_to_blot(s, 0);
        assert(s.skip(0) =~= s);
        no_value_to_blot(s, 0);
    }
}

proof fn no_mark_inside(s: Seq<char>, at: int)
    requires
        0 <= at < s.len(),
        forall|k: int| at + 2 <= k < s.len() ==> #[trigger] s[k] != '-',
        forall|k: int| 0 <= k < s.len() ==> !text::white_space(#[trigger] s[k]),
    ensures
        !is_match(Secret::Token, s, at),
{
    if spells(s, at, sk_mark()) {
        assert(same_letter(s[at + 2], sk_mark()[2]));
    }
    if spells(s, at, bearer_mark()) {
        run_end_is(s, at + 6, |c: char| text::white_space(c));
        if at + 6 < s.len() {
            assert(!text::white_space(s[at + 6]));
        }
    }
}

/// The value behind one of the four names is replaced, with the name left before it.
pub proof fn values_are_replaced(name: Seq<char>, value: Seq<char>)
    requires
        is_secret_name(name),
        forall|i: int| 0 <= i < value.len() ==> is_plain(#[trigger] value[i]),
    ensures
        value.len() > 0 ==> without_secrets(name + value) == name + blot(),
        value.len() == 0 ==> without_secrets(name + value) == name,
{
    let s = name + value;
    let n = s.len() as int;
    let m = name.len() as int;
    assert forall|k: int| 0 <= k < n implies #[trigger] s[k] != '-' && !text::white_space(s[k]) by {
        if k >= m {
            assert(s[k] == value[k - m]);
        }
    }
    assert forall|at: int| 0 <= at < n implies !#[trigger] is_match(Secret::Token, s, at) by {
        no_mark_inside(s, at);
    }
    nothing_to_blot(s, 0);
    assert(s.skip(0) =~= s);
    let f = |c: char| value_char(c);
    assert forall|k: int| m <= k < n implies f(#[trigger] s[k]) by {
        assert(s[k] == value[k - m]);
    }
    run_ends_at(s, m, f, n);
    assert forall|k: int| 0 <= k < m implies s[0 + k] == #[trigger] name[k] by {}
    assert(spells(s, 0, name));
    names_are_kept(s, 0, name);
    if value.len() > 0 {
        assert(is_match(Secret::Value, s, 0));
        assert(blotted(Secret::Value, s, n) =~= Seq::empty());
        assert(s.subrange(0, m) =~= name);
        assert(blotted(Secret::Value, s, 0) =~= name + blot());
    } else {
        assert(s =~= name);
        nothing_behind_the_name(s, 0);
    }
}

/// Where `=` stands at the end alone, there is no value to replace.
proof fn nothing_behind_the_name(s: Seq<char>, at: int)
    requires
        0 <= at <= s.len(),
        forall|k: int| 0 <= k < s.len() - 1 ==> #[trigger] s[k] != '=',
    ensures
        blotted(Secret::Value, s, at) == s.skip(at),
    decreases s.len() - at,
{
    if at < s.len() {
        if is_match(Secret::Value, s, at) {
            match_is(Secret::Value, s, at);
            value_name_is(s, at);
        }
        nothing_behind_the_name(s, at + 1);
        assert(seq![s[at]] + s.skip(at + 1) =~= s.skip(at));
    } else {
        assert(s.skip(at) =~= Seq::<char>::empty());
    }
}

} // verus!
