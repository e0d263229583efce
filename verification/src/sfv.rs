//! Lists of quoted strings, as carried in configuration values and headers.
//!
//! A list is written as its items, each between double quotes with every
//! backslash and double quote inside preceded by a backslash, separated by a
//! comma and a space.

use vstd::prelude::*;
use crate::text::chars_of;

verus! {

/// The views of a vector of strings.
pub open spec fn views(items: Seq<String>) -> Seq<Seq<char>> {
    Seq::new(items.len(), |i: int| items[i]@)
}

/// How one character of an item is written: a backslash or a double quote
/// after a backslash, any other character as itself.
pub open spec fn escaped_char(c: char) -> Seq<char> {
    if c == '\\' || c == '"' {
        seq!['\\', c]
    } else {
        seq![c]
    }
}

/// `s` with a backslash put before every backslash and double quote.
pub open spec fn escaped(s: Seq<char>) -> Seq<char>
    decreases s.len(),
{
    if s.len() == 0 {
        Seq::empty()
    } else {
        escaped_char(s[0]) + escaped(s.drop_first())
    }
}

/// One item as it is written in a list: escaped, between double quotes.
pub open spec fn quoted(s: Seq<char>) -> Seq<char> {
    seq!['"'] + escaped(s) + seq!['"']
}

/// The written form of a list of strings.
pub open spec fn encoded_list(items: Seq<Seq<char>>) -> Seq<char>
    decreases items.len(),
{
    if items.len() == 0 {
        Seq::empty()
    } else if items.len() == 1 {
        quoted(items[0])
    } else {
        quoted(items[0]) + seq![',', ' '] + encoded_list(items.drop_first())
    }
}

/// `s` without its leading spaces and tabs.
pub open spec fn skip_blanks(s: Seq<char>) -> Seq<char>
    decreases s.len(),
{
    if s.len() > 0 && (s[0] == ' ' || s[0] == '\t') {
        skip_blanks(s.drop_first())
    } else {
        s
    }
}

/// What follows the first comma of `s`; nothing if `s` has no comma.
pub open spec fn after_comma(s: Seq<char>) -> Seq<char>
    decreases s.len(),
{
    if s.len() == 0 {
        s
    } else if s[0] == ',' {
        s.drop_first()
    } else {
        after_comma(s.drop_first())
    }
}

/// The content of a quoted string whose opening quote has just been read.
/// A backslash that another character follows stands for that character; the
/// content ends at the first double quote not so preceded, or with `s`.
pub open spec fn string_content(s: Seq<char>) -> Seq<char>
    decreases s.len(),
{
    if s.len() == 0 {
        Seq::empty()
    } else if s[0] == '\\' && s.len() > 1 {
        seq![s[1]] + string_content(s.skip(2))
    } else if s[0] == '"' {
        Seq::empty()
    } else {
        seq![s[0]] + string_content(s.drop_first())
    }
}

/// What follows the closing quote of that string; nothing if it is not closed.
pub open spec fn after_string(s: Seq<char>) -> Seq<char>
    decreases s.len(),
{
    if s.len() == 0 {
        s
    } else if s[0] == '\\' && s.len() > 1 {
        after_string(s.skip(2))
    } else if s[0] == '"' {
        s.drop_first()
    } else {
        after_string(s.drop_first())
    }
}

/// The strings that a written list holds. Blanks before an element are
/// passed over. An element that does not open with a double quote is passed
/// over up to the next comma. After a closing quote everything up to the
/// next comma is discarded.
pub open spec fn decoded_list(s: Seq<char>) -> Seq<Seq<char>>
    decreases s.len(),
{
    let t = skip_blanks(s);
    if t.len() == 0 {
        Seq::empty()
    } else if t[0] != '"' {
        proof {
            lemma_skip_blanks_len(s);
            lemma_after_comma_len(t);
        }
        decoded_list(after_comma(t))
    } else {
        proof {
            lemma_skip_blanks_len(s);
            lemma_after_string_len(t.drop_first());
            lemma_after_comma_len(after_string(t.drop_first()));
        }
        seq![string_content(t.drop_first())] + decoded_list(after_comma(after_string(t.drop_first())))
    }
}

pub proof fn lemma_skip_blanks_len(s: Seq<char>)
    ensures
        skip_blanks(s).len() <= s.len(),
    decreases s.len(),
{
    if s.len() > 0 && (s[0] == ' ' || s[0] == '\t') {
        lemma_skip_blanks_len(s.drop_first());
    }
}

pub proof fn lemma_after_comma_len(s: Seq<char>)
    ensures
        after_comma(s).len() <= s.len(),
        s.len() > 0 ==> after_comma(s).len() < s.len(),
    decreases s.len(),
{
    if s.len() > 0 && s[0] != ',' {
        lemma_after_comma_len(s.drop_first());
    }
}

pub proof fn lemma_after_string_len(s: Seq<char>)
    ensures
        after_string(s).len() <= s.len(),
    decreases s.len(),
{
    if s.len() == 0 {
    } else if s[0] == '\\' && s.len() > 1 {
        lemma_after_string_len(s.skip(2));
    } else if s[0] == '"' {
    } else {
        lemma_after_string_len(s.drop_first());
    }
}


proof fn lemma_escaped_push(s: Seq<char>, c: char)
    ensures
        escaped(s.push(c)) == escaped(s) + escaped_char(c),
    decreases s.len(),
{
    if s.len() == 0 {
        assert(s.push(c).drop_first() =~= Seq::<char>::empty());
        assert(escaped(s.push(c).drop_first()) =~= Seq::<char>::empty());
        assert(escaped(s) =~= Seq::<char>::empty());
        assert(s.push(c)[0] == c);
        assert(escaped(s.push(c)) =~= escaped(s) + escaped_char(c));
    } else {
        lemma_escaped_push(s.drop_first(), c);
        assert(s.push(c).drop_first() =~= s.drop_first().push(c));
        assert(escaped(s.push(c)) =~= escaped(s) + escaped_char(c));
    }
}

proof fn lemma_encoded_push(items: Seq<Seq<char>>, x: Seq<char>)
    ensures
        encoded_list(items.push(x)) == if items.len() == 0 {
            quoted(x)
        } else {
            encoded_list(items) + seq![',', ' '] + quoted(x)
        },
    decreases items.len(),
{
    if items.len() == 0 {
    } else {
        lemma_encoded_push(items.drop_first(), x);
        assert(items.push(x).drop_first() =~= items.drop_first().push(x));
        if items.len() == 1 {
            assert(items.drop_first().len() == 0);
        }
        assert(encoded_list(items.push(x)) =~= encoded_list(items) + seq![',', ' '] + quoted(x));
    }
}

/// Appends the written form of one item to `out`.
fn push_quoted(out: &mut String, item: &str)
    ensures
        final(out)@ == old(out)@ + quoted(item@),
{
    let chars = chars_of(item);
    out.push('"');
    let mut i: usize = 0;
    while i < chars.len()
        invariant
            i <= chars.len(),
            out@ == old(out)@ + seq!['"'] + escaped(chars@.take(i as int)),
        decreases chars.len() - i,
    {
        let c = chars[i];
        proof {
            lemma_escaped_push(chars@.take(i as int), c);
            assert(chars@.take(i as int).push(c) =~= chars@.take(i + 1));
        }
        if c == '\\' || c == '"' {
            out.push('\\');
        }
        out.push(c);
        proof {
            assert(out@ =~= old(out)@ + seq!['"'] + escaped(chars@.take(i + 1)));
        }
        i += 1;
    }
    proof {
        assert(chars@.take(i as int) =~= item@);
    }
    out.push('"');
    proof {
        assert(out@ =~= old(out)@ + quoted(item@));
    }
}

/// Writes a list of strings: each item quoted and escaped, the items joined
/// by a comma and a space.
pub fn encode_sfv_string_list(strings: &[String]) -> (out: String)
    ensures
        out@ == encoded_list(views(strings@)),
{
    let mut out = String::new();
    let mut i: usize = 0;
    while i < strings.len()
        invariant
            i <= strings.len(),
            out@ == encoded_list(views(strings@).take(i as int)),
        decreases strings.len() - i,
    {
        proof {
            lemma_encoded_push(views(strings@).take(i as int), strings@[i as int]@);
            assert(views(strings@).take(i as int).push(strings@[i as int]@) =~= views(
                strings@,
            ).take(i + 1));
        }
        if i > 0 {
            out.push(',');
            out.push(' ');
        }
        push_quoted(&mut out, strings[i].as_str());
        proof {
            assert(out@ =~= encoded_list(views(strings@).take(i + 1)));
        }
        i += 1;
    }
    proof {
        assert(views(strings@).take(i as int) =~= views(strings@));
    }
    out
}

/// Writes the direct source URLs as the value of the header that forwards
/// them to a cache server.
pub fn encode_source_urls(urls: &[String]) -> (out: String)
    ensures
        out@ == encoded_list(views(urls@)),
{
    encode_sfv_string_list(urls)
}

/// Reads the configured list of cache-server base URLs.
pub fn parse_fetchurl_server(value: &str) -> (out: Vec<String>)
    ensures
        views(out@) == decoded_list(value@),
{
    parse_sfv_string_list(value)
}

/// The position just past the first comma at or after `i`, or the end.
fn skip_past_comma(s: &Vec<char>, i: usize) -> (j: usize)
    requires
        i <= s.len(),
    ensures
        i <= j <= s.len(),
        i < s.len() ==> i < j,
        s@.skip(j as int) == after_comma(s@.skip(i as int)),
{
    let n = s.len();
    let mut j: usize = i;
    while j < n && s[j] != ','
        invariant
            i <= j <= n,
            n == s.len(),
            after_comma(s@.skip(j as int)) == after_comma(s@.skip(i as int)),
        decreases n - j,
    {
        proof {
            assert(s@.skip(j as int).drop_first() =~= s@.skip(j + 1));
        }
        j += 1;
    }
    if j < n {
        proof {
            assert(s@.skip(j as int).drop_first() =~= s@.skip(j + 1));
        }
        j += 1;
    }
    j
}

/// Reads a written list of strings. Never fails: what cannot be read as a
/// quoted string is passed over.
pub fn parse_sfv_string_list(input: &str) -> (out: Vec<String>)
    ensures
        views(out@) == decoded_list(input@),
{
    let s = chars_of(input);
    let n = s.len();
    let mut results: Vec<String> = Vec::new();
    let mut i: usize = 0;
    proof {
        assert(s@.skip(0) =~= s@);
        assert(views(results@) + decoded_list(s@.skip(0)) =~= decoded_list(s@));
    }
    while i < n
        invariant
            i <= n,
            n == s.len(),
            s@ == input@,
            views(results@) + decoded_list(s@.skip(i as int)) == decoded_list(s@),
        decreases n - i,
    {
        let ghost start = i;
        while i < n && (s[i] == ' ' || s[i] == '\t')
            invariant
                start <= i <= n,
                n == s.len(),
                skip_blanks(s@.skip(i as int)) == skip_blanks(s@.skip(start as int)),
            decreases n - i,
        {
            proof {
                assert(s@.skip(i as int).drop_first() =~= s@.skip(i + 1));
            }
            i += 1;
        }
        let ghost t = s@.skip(i as int);
        assert(skip_blanks(s@.skip(start as int)) == t);
        if i < n {
            if s[i] != '"' {
                i = skip_past_comma(&s, i);
            } else {
                i += 1;
                let ghost body = s@.skip(i as int);
                assert(t.drop_first() =~= body);
                let mut item = String::new();
                let mut closed = false;
                while i < n && !closed
                    invariant
                        start < i <= n,
                        n == s.len(),
                        !closed ==> item@ + string_content(s@.skip(i as int)) == string_content(
                            body,
                        ),
                        !closed ==> after_string(s@.skip(i as int)) == after_string(body),
                        closed ==> item@ == string_content(body),
                        closed ==> s@.skip(i as int) == after_string(body),
                    decreases n - i,
                {
                    let ghost rest = s@.skip(i as int);
                    let c = s[i];
                    if c == '\\' && i + 1 < n {
                        item.push(s[i + 1]);
                        proof {
                            assert(rest.skip(2) =~= s@.skip(i + 2));
                            assert(item@ + string_content(s@.skip(i + 2)) =~= string_content(body));
                        }
                        i += 2;
                    } else if c == '"' {
                        proof {
                            assert(rest.drop_first() =~= s@.skip(i + 1));
                            assert(item@ =~= string_content(body));
                        }
                        i += 1;
                        closed = true;
                    } else {
                        item.push(c);
                        proof {
                            assert(rest.drop_first() =~= s@.skip(i + 1));
                            assert(item@ + string_content(s@.skip(i + 1)) =~= string_content(body));
                        }
                        i += 1;
                    }
                }
                proof {
                    if !closed {
                        assert(item@ =~= string_content(body));
                    }
                    assert(views(results@.push(item)) =~= views(results@) + seq![item@]);
                }
                results.push(item);
                i = skip_past_comma(&s, i);
                proof {
                    assert(decoded_list(s@.skip(start as int)) == seq![string_content(body)]
                        + decoded_list(s@.skip(i as int)));
                    assert(views(results@) + decoded_list(s@.skip(i as int)) =~= decoded_list(s@));
                }
            }
        }
    }
    proof {
        assert(s@.skip(i as int).len() == 0);
        assert(views(results@) =~= decoded_list(s@));
    }
    results
}


/// Reading an escaped item up to its closing quote gives the item back, and
/// leaves what followed the quote.
pub proof fn lemma_read_escaped(x: Seq<char>, tail: Seq<char>)
    ensures
        string_content(escaped(x) + seq!['"'] + tail) == x,
        after_string(escaped(x) + seq!['"'] + tail) == tail,
    decreases x.len(),
{
    let s = escaped(x) + seq!['"'] + tail;
    if x.len() == 0 {
        assert(s[0] == '"');
        assert(s.drop_first() =~= tail);
        assert(string_content(s) =~= x);
    } else {
        let c = x[0];
        let next = escaped(x.drop_first()) + seq!['"'] + tail;
        lemma_read_escaped(x.drop_first(), tail);
        if c == '\\' || c == '"' {
            assert(s[0] == '\\' && s[1] == c);
            assert(s.skip(2) =~= next);
        } else {
            assert(s[0] == c);
            assert(s.drop_first() =~= next);
        }
        assert(seq![c] + x.drop_first() =~= x);
    }
}

/// Decoding inverts encoding: for every list of strings, whatever
/// characters they hold, reading its written form gives the list back.
pub proof fn lemma_decode_encode(items: Seq<Seq<char>>)
    ensures
        decoded_list(encoded_list(items)) == items,
    decreases items.len(),
{
    let e = encoded_list(items);
    if items.len() == 0 {
        assert(decoded_list(e) =~= items);
    } else {
        let x = items[0];
        let rest = items.drop_first();
        let tail = if items.len() == 1 {
            Seq::<char>::empty()
        } else {
            seq![',', ' '] + encoded_list(rest)
        };
        assert(e =~= seq!['"'] + escaped(x) + seq!['"'] + tail);
        assert(e[0] == '"');
        assert(skip_blanks(e) == e);
        assert(e.drop_first() =~= escaped(x) + seq!['"'] + tail);
        lemma_read_escaped(x, tail);
        lemma_decode_encode(rest);
        if items.len() == 1 {
            assert(decoded_list(after_comma(tail)) =~= Seq::<Seq<char>>::empty());
        } else {
            let r = encoded_list(rest);
            let padded = seq![' '] + r;
            assert(r[0] == '"');
            assert(tail[0] == ',');
            assert(after_comma(tail) =~= padded);
            assert(padded.drop_first() =~= r);
            assert(skip_blanks(r) == r);
            assert(skip_blanks(padded) == r);
            assert(decoded_list(padded) == decoded_list(r));
        }
        assert(seq![x] + rest =~= items);
    }
}

/// Whether every character of `s` is a space or a tab.
pub open spec fn all_blank(s: Seq<char>) -> bool {
    forall|i: int| 0 <= i < s.len() ==> s[i] == ' ' || s[i] == '\t'
}

/// Whether `s` holds no comma.
pub open spec fn comma_free(s: Seq<char>) -> bool {
    forall|i: int| 0 <= i < s.len() ==> s[i] != ','
}

proof fn lemma_skip_leading_blanks(blanks: Seq<char>, s: Seq<char>)
    requires
        all_blank(blanks),
    ensures
        skip_blanks(blanks + s) == skip_blanks(s),
    decreases blanks.len(),
{
    if blanks.len() == 0 {
        assert(blanks + s =~= s);
    } else {
        assert((blanks + s).drop_first() =~= blanks.drop_first() + s);
        lemma_skip_leading_blanks(blanks.drop_first(), s);
    }
}

proof fn lemma_after_first_comma(head: Seq<char>, rest: Seq<char>)
    requires
        comma_free(head),
    ensures
        after_comma(head + seq![','] + rest) == rest,
        after_comma(head) == Seq::<char>::empty(),
    decreases head.len(),
{
    let s = head + seq![','] + rest;
    if head.len() == 0 {
        assert(s.drop_first() =~= rest);
        assert(after_comma(head) =~= Seq::<char>::empty());
    } else {
        assert(s.drop_first() =~= head.drop_first() + seq![','] + rest);
        lemma_after_first_comma(head.drop_first(), rest);
    }
}

/// Spaces and tabs before a list do not change what it holds.
pub proof fn lemma_leading_blanks_ignored(blanks: Seq<char>, s: Seq<char>)
    requires
        all_blank(blanks),
    ensures
        decoded_list(blanks + s) == decoded_list(s),
{
    lemma_skip_leading_blanks(blanks, s);
}

/// What stands between the closing quote of an item and the next comma,
/// such as parameters of the item, is discarded: the item is read as it was
/// written, and reading goes on after the comma.
pub proof fn lemma_parameters_ignored(x: Seq<char>, params: Seq<char>, rest: Seq<char>)
    requires
        comma_free(params),
    ensures
        decoded_list(quoted(x) + params + seq![','] + rest) == seq![x] + decoded_list(rest),
        decoded_list(quoted(x) + params) == seq![x],
{
    let tail = params + seq![','] + rest;
    let s = quoted(x) + params + seq![','] + rest;
    assert(s =~= seq!['"'] + escaped(x) + seq!['"'] + tail);
    assert(s[0] == '"');
    assert(s.drop_first() =~= escaped(x) + seq!['"'] + tail);
    lemma_read_escaped(x, tail);
    lemma_after_first_comma(params, rest);

    let last = quoted(x) + params;
    assert(last =~= seq!['"'] + escaped(x) + seq!['"'] + params);
    assert(last[0] == '"');
    assert(last.drop_first() =~= escaped(x) + seq!['"'] + params);
    lemma_read_escaped(x, params);
    assert(decoded_list(Seq::<char>::empty()) =~= Seq::<Seq<char>>::empty());
    assert(decoded_list(last) =~= seq![x]);
}

/// An element that does not open with a double quote is passed over up to
/// the next comma.
pub proof fn lemma_token_ignored(token: Seq<char>, rest: Seq<char>)
    requires
        comma_free(token),
        token.len() > 0,
        token[0] != '"' && token[0] != ' ' && token[0] != '\t',
    ensures
        decoded_list(token + seq![','] + rest) == decoded_list(rest),
{
    lemma_after_first_comma(token, rest);
}

} // verus!
