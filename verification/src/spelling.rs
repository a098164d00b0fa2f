//! What cutting, splitting and joining do to texts.
use vstd::prelude::*;
use vstd::string::*;

use crate::smoke;
use crate::text;

verus! {

/// White space are the characters from tab to carriage return, the blanks of all widths,
/// the next-line character and the separators of lines and paragraphs; printed ASCII
/// characters and ideographs are none.
pub proof fn white_space_is_not_printed(c: char)
    ensures
        text::white_space(c) <==> {
            let n = c as int;
            9 <= n <= 13 || n == 32 || n == 133 || n == 160 || n == 5760 || 8192 <= n <= 8202 || n
                == 8232 || n == 8233 || n == 8239 || n == 8287 || n == 12288
        },
        '!' <= c <= '~' ==> !text::white_space(c),
        '\u{4e00}' <= c <= '\u{9fff}' ==> !text::white_space(c),
{
}

/// A trimmed text is what stands between the white space at the two ends: white space
/// alone is cut, and none is left at either end.
pub proof fn trimming_cuts_white_space(s: Seq<char>) -> (ends: (int, int))
    ensures
        0 <= ends.0 <= ends.1 <= s.len(),
        text::trimmed(s) == s.subrange(ends.0, ends.1),
        forall|i: int| 0 <= i < ends.0 || ends.1 <= i < s.len() ==> text::white_space(
            #[trigger] s[i],
        ),
        ends.0 < ends.1 ==> !text::white_space(s[ends.0]) && !text::white_space(s[ends.1 - 1]),
    decreases s.len(),
{
    if s.len() > 0 && text::white_space(s.first()) {
        let rest = s.drop_first();
        let inner = trimming_cuts_white_space(rest);
        assert(s.subrange(inner.0 + 1, inner.1 + 1) =~= rest.subrange(inner.0, inner.1));
        assert forall|i: int|
            0 <= i < inner.0 + 1 || inner.1 + 1 <= i < s.len() implies text::white_space(
            #[trigger] s[i],
        ) by {
            if i > 0 {
                assert(rest[i - 1] == s[i]);
            }
        }
        assert(inner.0 < inner.1 ==> s[inner.0 + 1] == rest[inner.0] && s[inner.1]
            == rest[inner.1 - 1]);
        (inner.0 + 1, inner.1 + 1)
    } else {
        end_is_cut(s)
    }
}

proof fn end_is_cut(s: Seq<char>) -> (ends: (int, int))
    requires
        s.len() > 0 ==> !text::white_space(s.first()),
    ensures
        ends.0 == 0,
        0 <= ends.1 <= s.len(),
        text::trimmed_end(s) == s.subrange(0, ends.1),
        forall|i: int| ends.1 <= i < s.len() ==> text::white_space(#[trigger] s[i]),
        0 < ends.1 ==> !text::white_space(s[ends.1 - 1]),
        s.len() > 0 ==> ends.1 > 0,
    decreases s.len(),
{
    if s.len() > 0 && text::white_space(s.last()) {
        let rest = s.drop_last();
        assert(rest.len() > 0 ==> rest.first() == s.first());
        assert(s.len() > 1) by {
            if s.len() == 1 {
                assert(s.first() == s.last());
            }
        }
        let inner = end_is_cut(rest);
        assert(s.subrange(0, inner.1) =~= rest.subrange(0, inner.1));
        assert forall|i: int| inner.1 <= i < s.len() implies text::white_space(#[trigger] s[i]) by {
            if i < rest.len() {
                assert(rest[i] == s[i]);
            }
        }
        assert(rest[inner.1 - 1] == s[inner.1 - 1]);
        inner
    } else {
        assert(s.subrange(0, s.len() as int) =~= s);
        (0, s.len() as int)
    }
}

/// White space parts the words of a text: a text without any is one word, unless it is
/// empty, and the words around a white space are those before it and those behind.
pub proof fn white_space_parts_words(a: Seq<char>, space: char, b: Seq<char>)
    requires
        text::white_space(space),
    ensures
        text::words(Seq::empty()).len() == 0,
        a.len() > 0 && (forall|i: int| 0 <= i < a.len() ==> !text::white_space(#[trigger] a[i]))
            ==> text::words(a) == seq![a],
        text::words(a.push(space) + b) == text::words(a) + text::words(b),
{
    if forall|i: int| 0 <= i < a.len() ==> !text::white_space(#[trigger] a[i]) {
        one_word(Seq::empty(), a);
        assert(Seq::<char>::empty() + a =~= a);
    }
    words_are_parted(Seq::empty(), a, space, b);
}

proof fn one_word(word: Seq<char>, s: Seq<char>)
    requires
        forall|i: int| 0 <= i < s.len() ==> !text::white_space(#[trigger] s[i]),
    ensures
        (word + s).len() > 0 ==> text::words_after(word, s) == seq![word + s],
    decreases s.len(),
{
    if s.len() > 0 {
        let rest = s.drop_first();
        assert forall|i: int| 0 <= i < rest.len() implies !text::white_space(#[trigger] rest[i]) by {
            assert(rest[i] == s[i + 1]);
        }
        assert(!text::white_space(s[0]));
        one_word(word.push(s.first()), rest);
        assert(word.push(s.first()) + rest =~= word + s);
    } else {
        assert(word + s =~= word);
    }
}

proof fn words_are_parted(word: Seq<char>, a: Seq<char>, space: char, b: Seq<char>)
    requires
        text::white_space(space),
    ensures
        text::words_after(word, a.push(space) + b) == text::words_after(word, a) + text::words(b),
    decreases a.len(),
{
    let s = a.push(space) + b;
    if a.len() == 0 {
        assert(s.first() == space);
        assert(s.drop_first() =~= b);
    } else {
        assert(s.first() == a.first());
        assert(s.drop_first() =~= a.drop_first().push(space) + b);
        if text::white_space(a.first()) {
            words_are_parted(Seq::empty(), a.drop_first(), space, b);
            let done = if word.len() == 0 {
                Seq::<Seq<char>>::empty()
            } else {
                seq![word]
            };
            assert(done + (text::words_after(Seq::empty(), a.drop_first()) + text::words(b)) =~= (
            done + text::words_after(Seq::empty(), a.drop_first())) + text::words(b));
        } else {
            words_are_parted(word.push(a.first()), a.drop_first(), space, b);
        }
    }
}

/// Joined texts stand in their order with the separator between two.
pub proof fn joining_puts_separators_between(
    parts: Seq<Seq<char>>,
    part: Seq<char>,
    separator: Seq<char>,
)
    ensures
        text::joined(Seq::empty(), separator).len() == 0,
        text::joined(seq![part], separator) == part,
        parts.len() > 0 ==> text::joined(parts.push(part), separator) == text::joined(
            parts,
            separator,
        ) + separator + part,
{
    assert(parts.push(part).drop_last() =~= parts);
}

/// A shortened text is the beginning of the text, as long as allowed.
pub proof fn shortening_keeps_the_beginning(s: Seq<char>, max: int)
    requires
        max >= 0,
    ensures
        s.len() <= max ==> text::first_chars(s, max) == s,
        s.len() > max ==> text::first_chars(s, max).len() == max,
        forall|i: int|
            0 <= i < text::first_chars(s, max).len() ==> #[trigger] text::first_chars(s, max)[i]
                == s[i],
{
}

/// Texts are ordered as in a dictionary: the first character in which they differ
/// decides, and a text stands before its continuations.
pub proof fn first_difference_orders(
    common: Seq<char>,
    a: char,
    b: char,
    x: Seq<char>,
    y: Seq<char>,
)
    requires
        a != b,
    ensures
        text::text_less(common.push(a) + x, common.push(b) + y) <==> a < b,
        text::text_less(common, common.push(a) + x),
        !text::text_less(common.push(a) + x, common),
    decreases common.len(),
{
    let s = common.push(a) + x;
    let t = common.push(b) + y;
    if common.len() == 0 {
        assert(s.first() == a && t.first() == b);
    } else {
        let rest = common.drop_first();
        assert(s.first() == common.first() && t.first() == common.first());
        assert(s.drop_first() =~= rest.push(a) + x);
        assert(t.drop_first() =~= rest.push(b) + y);
        first_difference_orders(rest, a, b, x, y);
    }
}

/// An escaped message can be read back: two messages have the same escaped form only if
/// they are the same.
pub proof fn escaped_messages_are_told_apart(a: Seq<char>, b: Seq<char>)
    ensures
        smoke::escaped(a) == smoke::escaped(b) ==> a == b,
    decreases a.len(),
{
    reveal_strlit("%25");
    reveal_strlit("%0D");
    reveal_strlit("%0A");
    if smoke::escaped(a) == smoke::escaped(b) {
        escapes_are_not_empty(a);
        escapes_are_not_empty(b);
        if a.len() > 0 && b.len() > 0 {
            let ea = smoke::escaped_char(a.last());
            let eb = smoke::escaped_char(b.last());
            let s = smoke::escaped(a);
            let ra = smoke::escaped(a.drop_last());
            let rb = smoke::escaped(b.drop_last());
            assert(s == ra + ea && s == rb + eb);
            if ea.len() == eb.len() {
                assert(ra =~= s.subrange(0, s.len() - ea.len()));
                assert(rb =~= s.subrange(0, s.len() - ea.len()));
                assert(ea =~= s.subrange(s.len() - ea.len(), s.len() as int));
                assert(eb =~= s.subrange(s.len() - ea.len(), s.len() as int));
                escaped_messages_are_told_apart(a.drop_last(), b.drop_last());
                assert(ea[ea.len() - 1] == eb[eb.len() - 1]);
                assert(a.last() == b.last());
                assert(a =~= a.drop_last().push(a.last()));
                assert(b =~= b.drop_last().push(b.last()));
            } else if ea.len() == 3 {
                escape_is_no_plain_end(a, b);
            } else {
                escape_is_no_plain_end(b, a);
            }
        } else {
            assert(a =~= b);
        }
    }
}

proof fn escapes_are_not_empty(a: Seq<char>)
    ensures
        a.len() > 0 ==> smoke::escaped(a).len() > 0,
        a.len() == 0 ==> smoke::escaped(a).len() == 0,
{
    reveal_strlit("%25");
    reveal_strlit("%0D");
    reveal_strlit("%0A");
}

/// Every sign `%` in an escaped message begins one of the three escapes.
proof fn signs_begin_escapes(m: Seq<char>, i: int)
    requires
        0 <= i < smoke::escaped(m).len(),
        smoke::escaped(m)[i] == '%',
    ensures
        i + 2 < smoke::escaped(m).len(),
        smoke::escaped(m)[i + 1] == '2' || smoke::escaped(m)[i + 1] == '0',
    decreases m.len(),
{
    reveal_strlit("%25");
    reveal_strlit("%0D");
    reveal_strlit("%0A");
    let rest = smoke::escaped(m.drop_last());
    let e = smoke::escaped_char(m.last());
    assert(smoke::escaped(m) == rest + e);
    if i < rest.len() {
        signs_begin_escapes(m.drop_last(), i);
    } else {
        assert(e[i - rest.len()] == '%');
    }
}

/// A message that ends in an escape has no equal that ends in a plain character.
proof fn escape_is_no_plain_end(a: Seq<char>, b: Seq<char>)
    requires
        a.len() > 0,
        b.len() > 0,
        smoke::escaped_char(a.last()).len() == 3,
        smoke::escaped_char(b.last()).len() == 1,
    ensures
        smoke::escaped(a) != smoke::escaped(b),
{
    reveal_strlit("%25");
    reveal_strlit("%0D");
    reveal_strlit("%0A");
    let s = smoke::escaped(a);
    let ra = smoke::escaped(a.drop_last());
    let rb = smoke::escaped(b.drop_last());
    let k = ra.len() as int;
    assert(s == ra + smoke::escaped_char(a.last()));
    assert(s[k] == '%');
    if s == smoke::escaped(b) {
        assert(s == rb + smoke::escaped_char(b.last()));
        assert(rb.len() == s.len() - 1);
        assert(rb[k] == s[k]);
        signs_begin_escapes(b.drop_last(), k);
        assert(s[k + 1] == rb[k + 1] && s[k + 2] == rb[k + 2]);
    }
}

/// A request is read until its head is complete, unless it grows too large: a head is
/// complete as soon as an empty line stands in it.
pub proof fn requests_are_read_to_the_empty_line(bytes: Seq<u8>, i: int)
    ensures
        bytes.len() > 65_536 ==> smoke::step_of(bytes) is TooLarge,
        bytes.len() <= 65_536 && 0 <= i && i + 4 <= bytes.len() && bytes[i] == 13
            && bytes[i + 1] == 10 && bytes[i + 2] == 13 && bytes[i + 3] == 10 ==> smoke::step_of(
            bytes,
        ) is Complete,
        bytes.len() < 4 ==> !(smoke::step_of(bytes) is Complete),
{
    if 0 <= i && i + 4 <= bytes.len() && bytes[i] == 13 && bytes[i + 1] == 10 && bytes[i + 2] == 13
        && bytes[i + 3] == 10 {
        assert(smoke::is_empty_line(bytes, i));
    }
}

/// A quoted text stands between quotation marks, holds no line break, and as far as it
/// holds nothing that has to be escaped, it stands there as it is.
pub proof fn quoted_texts_are_in_quotes(s: Seq<char>)
    ensures
        smoke::json_string(s).first() == '"',
        smoke::json_string(s).last() == '"',
        smoke::json_string(s).len() >= s.len() + 2,
        (forall|i: int|
            0 <= i < s.len() ==> #[trigger] s[i] >= ' ' && s[i] != '"' && s[i] != '\\')
            ==> smoke::json_string(s) == seq!['"'] + s + seq!['"'],
        !smoke::json_string(s).contains('\n'),
        !smoke::json_string(s).contains('\r'),
{
    quoting_escapes(s);
    let q = smoke::json_string(s);
    let inner = smoke::json_chars(s);
    assert forall|i: int| 0 <= i < q.len() implies q[i] != '\n' && q[i] != '\r' by {
        if 0 < i < q.len() - 1 {
            assert(q[i] == inner[i - 1]);
        }
    }
}

proof fn escapes_hold_no_breaks(c: char)
    ensures
        forall|i: int|
            0 <= i < smoke::json_char(c).len() ==> #[trigger] smoke::json_char(c)[i] != '\n'
                && smoke::json_char(c)[i] != '\r',
{
    if '\u{1f}' >= c {
        let high = c as int / 16;
        let low = c as int % 16;
        assert(0 <= high < 16 && 0 <= low < 16);
        assert(smoke::hex_digit(high) >= '0' && smoke::hex_digit(low) >= '0');
    }
}

proof fn quoting_escapes(s: Seq<char>)
    ensures
        smoke::json_chars(s).len() >= s.len(),
        (forall|i: int|
            0 <= i < s.len() ==> #[trigger] s[i] >= ' ' && s[i] != '"' && s[i] != '\\')
            ==> smoke::json_chars(s) == s,
        forall|i: int|
            0 <= i < smoke::json_chars(s).len() ==> #[trigger] smoke::json_chars(s)[i] != '\n'
                && smoke::json_chars(s)[i] != '\r',
    decreases s.len(),
{
    if s.len() > 0 {
        let rest = s.drop_last();
        quoting_escapes(rest);
        let c = s.last();
        let e = smoke::json_char(c);
        assert(smoke::json_chars(s) == smoke::json_chars(rest) + e);
        if forall|i: int|
            0 <= i < s.len() ==> #[trigger] s[i] >= ' ' && s[i] != '"' && s[i] != '\\' {
            assert forall|i: int| 0 <= i < rest.len() implies #[trigger] rest[i] >= ' ' && rest[i]
                != '"' && rest[i] != '\\' by {
                assert(rest[i] == s[i]);
            }
            assert(s[s.len() - 1] == c);
            assert(e == seq![c]);
            assert(rest + e =~= s);
        }
        escapes_hold_no_breaks(c);
    }
}

/// The configuration of a smoke run holds the address that it is given, in quotes.
pub proof fn smoke_runs_use_their_address(url: &str, r: String)
    requires
        call_ensures(smoke::smoke_config, (url,), r),
    ensures
        crate::wording::holds(r@, smoke::json_string(url@)),
{
    let u = smoke::json_string(url@);
    let head =
        "{\"api\":{\"access_token_env\":\"NEWAPI_STATUS_FFI_SMOKE_TOKEN\",\"admin_user_id\":3,\"base_url\":"@;
    assert(r@.subrange(head.len() as int, head.len() as int + u.len()) =~= u);
}

/// A record is a status report of the smoke run exactly if it went from its bot to its
/// group and speaks of the status of models.
pub proof fn smoke_reports_are_recognised(records: Vec<smoke::Record>, r: bool)
    requires
        call_ensures(smoke::are_status_reports, (&records,), r),
    ensures
        records@.len() == 0 ==> !r,
        r ==> forall|i: int|
            0 <= i < records@.len() ==> (#[trigger] records@[i]).bot_id@ == "bot-a"@
                && records@[i].target_kind@ == "group"@ && records@[i].target_id@ == "10001"@
                && text::has_part(records@[i].message@, "模型状态"@),
        !r ==> records@.len() == 0 || exists|i: int|
            0 <= i < records@.len() && ((#[trigger] records@[i]).bot_id@ != "bot-a"@
                || records@[i].target_kind@ != "group"@ || records@[i].target_id@ != "10001"@
                || !text::has_part(records@[i].message@, "模型状态"@)),
{
    if !r && records@.len() > 0 {
        let i = choose|i: int|
            0 <= i < records@.len() && !(#[trigger] records@[i]).is_status_report();
        assert(records@[i].bot_id@ != "bot-a"@ || records@[i].target_kind@ != "group"@
            || records@[i].target_id@ != "10001"@ || !text::has_part(
            records@[i].message@,
            "模型状态"@,
        ));
    }
}

/// Different characters are quoted differently; quotation marks, backslashes and control
/// characters behind a backslash, and all others as they are.
pub proof fn quoted_characters_are_told_apart(a: char, b: char)
    ensures
        smoke::json_char(a) == smoke::json_char(b) ==> a == b,
        a == '"' || a == '\\' ==> smoke::json_char(a) == seq!['\\', a],
        '\u{1f}' >= a ==> smoke::json_char(a).len() >= 2 && smoke::json_char(a)[0] == '\\',
        a >= ' ' && a != '"' && a != '\\' ==> smoke::json_char(a) == seq![a],
{
    let x = smoke::json_char(a);
    let y = smoke::json_char(b);
    if x == y && a != b {
        if '\u{1f}' >= a && '\u{1f}' >= b && x.len() == 6 {
            hex_digits_differ(a as int / 16, b as int / 16);
            hex_digits_differ(a as int % 16, b as int % 16);
            assert(x[4] == y[4] && x[5] == y[5]);
            assert(a as int == b as int);
        } else if x.len() == 2 && y.len() == 2 {
            assert(x[1] == y[1]);
        } else {
            assert(x[0] == y[0]);
        }
    }
}

proof fn hex_digits_differ(a: int, b: int)
    requires
        0 <= a < 16,
        0 <= b < 16,
    ensures
        smoke::hex_digit(a) == smoke::hex_digit(b) ==> a == b,
{
}

/// A message without percent signs and line breaks is escaped as it is.
pub proof fn plain_messages_are_not_escaped(message: Seq<char>)
    requires
        forall|i: int|
            0 <= i < message.len() ==> #[trigger] message[i] != '%' && message[i] != '\r'
                && message[i] != '\n',
    ensures
        smoke::escaped(message) == message,
    decreases message.len(),
{
    if message.len() > 0 {
        let rest = message.drop_last();
        assert forall|i: int| 0 <= i < rest.len() implies #[trigger] rest[i] != '%' && rest[i]
            != '\r' && rest[i] != '\n' by {
            assert(rest[i] == message[i]);
        }
        plain_messages_are_not_escaped(rest);
        assert(message[message.len() - 1] == message.last());
        assert(rest + seq![message.last()] =~= message);
    } else {
        assert(smoke::escaped(message) =~= message);
    }
}

/// A mock response announces the length that it is given, and ends with its body behind
/// an empty line.
pub proof fn mock_responses_carry_their_body(body: &str, length: usize, r: String)
    requires
        call_ensures(smoke::mock_response, (body, length), r),
    ensures
        crate::wording::begins(
            r@,
            "HTTP/1.1 200 OK\r\nContent-Type: application/json\r\nContent-Length: "@
                + crate::decimal::decimal(length as int) + "\r\nConnection: close\r\n\r\n"@,
        ),
        crate::wording::ends(r@, body@),
        r@.len() == ("HTTP/1.1 200 OK\r\nContent-Type: application/json\r\nContent-Length: "@
            + crate::decimal::decimal(length as int)
            + "\r\nConnection: close\r\n\r\n"@).len() + body@.len(),
{
    let head = "HTTP/1.1 200 OK\r\nContent-Type: application/json\r\nContent-Length: "@
        + crate::decimal::decimal(length as int) + "\r\nConnection: close\r\n\r\n"@;
    assert(r@ == head + body@);
    assert(r@.subrange(0, head.len() as int) =~= head);
    assert(r@.subrange(r@.len() - body@.len(), r@.len() as int) =~= body@);
}

/// A mock page holds one paid line of the moment that it is given.
pub proof fn mock_pages_are_of_the_moment(created_at: i64, r: String)
    requires
        call_ensures(smoke::mock_log_page, (created_at,), r),
    ensures
        crate::wording::begins(
            r@,
            "{\"data\":{\"items\":[{\"channel\":1,\"created_at\":"@ + crate::decimal::decimal(
                created_at as int,
            ),
        ),
        crate::wording::ends(
            r@,
            "\"request_id\":\"ffi-smoke-request\",\"type\":2,\"use_time\":1}],\"total\":1},\"success\":true}"@,
        ),
{
    let head = "{\"data\":{\"items\":[{\"channel\":1,\"created_at\":"@ + crate::decimal::decimal(
        created_at as int,
    );
    let tail =
        "\"request_id\":\"ffi-smoke-request\",\"type\":2,\"use_time\":1}],\"total\":1},\"success\":true}"@;
    assert(r@.subrange(0, head.len() as int) =~= head);
    assert(r@.subrange(r@.len() - tail.len(), r@.len() as int) =~= tail);
}

/// A request is one for the log of the smoke run's model in whatever letters.
pub proof fn log_requests_are_recognised_in_any_case(
    a: &str,
    b: &str,
    first: bool,
    second: bool,
)
    requires
        call_ensures(smoke::is_log_request, (a,), first),
        call_ensures(smoke::is_log_request, (b,), second),
        crate::wording::same_but_for_case(a@, b@),
    ensures
        first == second,
        first ==> text::has_part(text::lowered(a@), "get /api/log/?"@) && text::has_part(
            text::lowered(a@),
            "model_name=echo"@,
        ),
        text::has_part(text::lowered(a@), "get /api/log/?"@) && text::has_part(
            text::lowered(a@),
            "model_name=echo"@,
        ) ==> first,
{
    crate::wording::case_does_not_matter(a@, b@);
}

/// A text has a part exactly if it is the part with something, or nothing, before and
/// behind it.
pub proof fn parts_stand_anywhere(s: Seq<char>, part: Seq<char>, a: Seq<char>, b: Seq<char>)
    ensures
        text::has_part(a + part + b, part),
        text::has_part(s, part) ==> exists|x: Seq<char>, y: Seq<char>|
            s == #[trigger] (x + part + y),
        s.len() < part.len() ==> !text::has_part(s, part),
{
    let t = a + part + b;
    let at = a.len() as int;
    assert(t.subrange(at, at + part.len()) =~= part);
    assert(text::stands_at(t, part, at));
    if text::has_part(s, part) {
        let i = choose|i: int| text::stands_at(s, part, i);
        let x = s.subrange(0, i);
        let y = s.subrange(i + part.len(), s.len() as int);
        assert(s.subrange(i, i + part.len()) == part);
        assert(s =~= x + s.subrange(i, i + part.len()) + y);
        assert(s == x + part + y);
    }
}

} // verus!
