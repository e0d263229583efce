//! Canonical names of hash algorithms.

use vstd::prelude::*;
use crate::text::chars_of;

verus! {

/// What one character of a name contributes to its canonical form: an ASCII
/// upper-case letter its lower-case form, an ASCII lower-case letter or
/// digit itself, any other character nothing.
pub open spec fn canonical_char(c: char) -> Option<char> {
    if 'A' <= c && c <= 'Z' {
        Some(((c as u8) + 32) as char)
    } else if ('a' <= c && c <= 'z') || ('0' <= c && c <= '9') {
        Some(c)
    } else {
        None
    }
}

/// The canonical form of a name: the contributions of its characters, in order.
pub open spec fn canonical(name: Seq<char>) -> Seq<char>
    decreases name.len(),
{
    if name.len() == 0 {
        Seq::empty()
    } else {
        match canonical_char(name.last()) {
            Some(c) => canonical(name.drop_last()).push(c),
            None => canonical(name.drop_last()),
        }
    }
}

/// Whether `name` is one of the canonical names `sha1`, `sha256`, `sha512`.
pub open spec fn supported_name(name: Seq<char>) -> bool {
    name == seq!['s', 'h', 'a', '1'] || name == seq!['s', 'h', 'a', '2', '5', '6'] || name == seq![
        's',
        'h',
        'a',
        '5',
        '1',
        '2',
    ]
}

fn canonical_char_of(c: char) -> (r: Option<char>)
    ensures
        r == canonical_char(c),
{
    if 'A' <= c && c <= 'Z' {
        Some(((c as u8) + 32) as char)
    } else if ('a' <= c && c <= 'z') || ('0' <= c && c <= '9') {
        Some(c)
    } else {
        None
    }
}

/// Brings an algorithm name into canonical form: lower case, letters and
/// digits only.
pub fn normalize_algo(name: &str) -> (out: String)
    ensures
        out@ == canonical(name@),
{
    let chars = chars_of(name);
    let mut out = String::new();
    let mut i: usize = 0;
    while i < chars.len()
        invariant
            i <= chars.len(),
            chars@ == name@,
            out@ == canonical(chars@.take(i as int)),
        decreases chars.len() - i,
    {
        proof {
            assert(chars@.take(i + 1).drop_last() =~= chars@.take(i as int));
        }
        match canonical_char_of(chars[i]) {
            Some(c) => out.push(c),
            None => {},
        }
        i += 1;
    }
    proof {
        assert(chars@.take(i as int) =~= chars@);
    }
    out
}

/// Whether the canonical form of `algo` names a supported algorithm.
pub fn is_supported(algo: &str) -> (r: bool)
    ensures
        r == supported_name(canonical(algo@)),
{
    let name = normalize_algo(algo);
    is_supported_name(&name)
}

/// Whether `name`, taken as it stands, is a supported canonical name.
pub fn is_supported_name(name: &String) -> (r: bool)
    ensures
        r == supported_name(name@),
{
    let sha1 = String::from_str("sha1");
    let sha256 = String::from_str("sha256");
    let sha512 = String::from_str("sha512");
    proof {
        reveal_strlit("sha1");
        reveal_strlit("sha256");
        reveal_strlit("sha512");
        assert(sha1@ =~= seq!['s', 'h', 'a', '1']);
        assert(sha256@ =~= seq!['s', 'h', 'a', '2', '5', '6']);
        assert(sha512@ =~= seq!['s', 'h', 'a', '5', '1', '2']);
    }
    *name == sha1 || *name == sha256 || *name == sha512
}

/// The canonical form of a name in two parts is that of the first part
/// followed by that of the second.
pub proof fn lemma_canonical_concat(a: Seq<char>, b: Seq<char>)
    ensures
        canonical(a + b) == canonical(a) + canonical(b),
    decreases b.len(),
{
    if b.len() == 0 {
        assert(a + b =~= a);
        assert(canonical(a) + canonical(b) =~= canonical(a));
    } else {
        lemma_canonical_concat(a, b.drop_last());
        assert((a + b).drop_last() =~= a + b.drop_last());
        assert((a + b).last() == b.last());
        match canonical_char(b.last()) {
            Some(c) => {
                assert(canonical(a + b) =~= canonical(a) + canonical(b));
            },
            None => {},
        }
    }
}

proof fn lemma_canonical_single(c: char)
    ensures
        canonical(seq![c]) == match canonical_char(c) {
            Some(d) => seq![d],
            None => Seq::empty(),
        },
{
    assert(seq![c].drop_last() =~= Seq::<char>::empty());
    assert(canonical(seq![c].drop_last()) =~= Seq::<char>::empty());
    match canonical_char(c) {
        Some(d) => {
            assert(canonical(seq![c]) =~= seq![d]);
        },
        None => {},
    }
}

/// A character that is neither an ASCII letter nor an ASCII digit, put
/// anywhere into a name, leaves the canonical form as it was.
pub proof fn lemma_separator_ignored(a: Seq<char>, c: char, b: Seq<char>)
    requires
        canonical_char(c) is None,
    ensures
        canonical(a + seq![c] + b) == canonical(a + b),
{
    lemma_canonical_concat(a + seq![c], b);
    lemma_canonical_concat(a, seq![c]);
    lemma_canonical_concat(a, b);
    lemma_canonical_single(c);
    assert(canonical(a) + Seq::<char>::empty() =~= canonical(a));
}

/// A letter gives the same canonical form in upper case as in lower case,
/// wherever in the name it stands.
pub proof fn lemma_case_ignored(a: Seq<char>, upper: char, lower: char, b: Seq<char>)
    requires
        'A' <= upper && upper <= 'Z',
        lower == ((upper as u8) + 32) as char,
    ensures
        canonical(a + seq![upper] + b) == canonical(a + seq![lower] + b),
{
    lemma_canonical_concat(a + seq![upper], b);
    lemma_canonical_concat(a, seq![upper]);
    lemma_canonical_concat(a + seq![lower], b);
    lemma_canonical_concat(a, seq![lower]);
    lemma_canonical_single(upper);
    lemma_canonical_single(lower);
    assert(canonical_char(lower) == Some(lower));
}

/// A canonical form is its own canonical form.
pub proof fn lemma_canonical_idempotent(name: Seq<char>)
    ensures
        canonical(canonical(name)) == canonical(name),
    decreases name.len(),
{
    if name.len() > 0 {
        lemma_canonical_idempotent(name.drop_last());
        match canonical_char(name.last()) {
            Some(c) => {
                let head = canonical(name.drop_last());
                assert(canonical_char(c) == Some(c));
                assert(head.push(c).drop_last() =~= head);
            },
            None => {},
        }
    }
}

/// Whether `c` is an ASCII letter or an ASCII digit.
pub open spec fn is_alphanumeric(c: char) -> bool {
    ('A' <= c && c <= 'Z') || ('a' <= c && c <= 'z') || ('0' <= c && c <= '9')
}

/// `c` in lower case, if it is an ASCII upper-case letter; else `c`.
pub open spec fn lower_case(c: char) -> char {
    if 'A' <= c && c <= 'Z' {
        ((c as u8) + 32) as char
    } else {
        c
    }
}

/// The ASCII letters and digits of a name, in order and as they are written.
pub open spec fn letters_and_digits(name: Seq<char>) -> Seq<char>
    decreases name.len(),
{
    if name.len() == 0 {
        Seq::empty()
    } else if is_alphanumeric(name.last()) {
        letters_and_digits(name.drop_last()).push(name.last())
    } else {
        letters_and_digits(name.drop_last())
    }
}

/// Two names are the same but for case and separators: their letters and
/// digits are as many, and at each place the same up to ASCII case.
pub open spec fn same_but_for_case_and_separators(a: Seq<char>, b: Seq<char>) -> bool {
    &&& letters_and_digits(a).len() == letters_and_digits(b).len()
    &&& forall|i: int|
        0 <= i < letters_and_digits(a).len() ==> lower_case(letters_and_digits(a)[i])
            == lower_case(letters_and_digits(b)[i])
}

/// The canonical form of a name is its letters and digits in lower case.
pub proof fn lemma_canonical_is_lowered_letters(name: Seq<char>)
    ensures
        canonical(name).len() == letters_and_digits(name).len(),
        forall|i: int|
            0 <= i < canonical(name).len() ==> canonical(name)[i] == lower_case(
                letters_and_digits(name)[i],
            ),
    decreases name.len(),
{
    if name.len() > 0 {
        lemma_canonical_is_lowered_letters(name.drop_last());
    }
}

/// Names that differ only by case and by characters other than letters and
/// digits have the same canonical form.
pub proof fn lemma_same_name_same_canonical(a: Seq<char>, b: Seq<char>)
    requires
        same_but_for_case_and_separators(a, b),
    ensures
        canonical(a) == canonical(b),
{
    lemma_canonical_is_lowered_letters(a);
    lemma_canonical_is_lowered_letters(b);
    assert(canonical(a) =~= canonical(b));
}

} // verus!
