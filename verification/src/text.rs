//! Character-level text utilities: line extraction, splitting on a
//! separator, trimming, and whitespace-delimited tokens.

use vstd::prelude::*;

verus! {

/// The whitespace characters this library trims and splits tokens on.
pub open spec fn is_space_char(c: char) -> bool {
    c == ' ' || c == '\t' || c == '\r' || c == '\n'
}

/// Relies on String::push: appends one character to the end of the string.
#[verifier::external_body]
pub(crate) fn push_char(s: &mut String, c: char)
    ensures
        final(s)@ == old(s)@.push(c),
{
    s.push(c);
}

/// String equality by view.
pub fn str_eq(a: &str, b: &str) -> (r: bool)
    ensures
        r == (a@ == b@),
{
    let sa = a.to_owned();
    let sb = b.to_owned();
    sa == sb
}

/// The characters of `s` that precede its first line break.
pub open spec fn first_line(s: Seq<char>) -> Seq<char>
    decreases s.len(),
{
    if s.len() == 0 {
        s
    } else if s[0] == '\n' {
        Seq::empty()
    } else {
        seq![s[0]] + first_line(s.drop_first())
    }
}

proof fn lemma_first_line_prefix(s: Seq<char>, i: int)
    requires
        0 <= i <= s.len(),
        forall|j: int| 0 <= j < i ==> s[j] != '\n',
        i == s.len() || s[i] == '\n',
    ensures
        first_line(s) == s.take(i),
    decreases i,
{
    if s.len() == 0 {
        assert(s.take(i) =~= s);
    } else if i == 0 {
        assert(s.take(0) =~= Seq::<char>::empty());
    } else {
        lemma_first_line_prefix(s.drop_first(), i - 1);
        assert(seq![s[0]] + s.drop_first().take(i - 1) =~= s.take(i));
    }
}

/// The string holds no occurrence of the character.
pub open spec fn lacks_char(s: Seq<char>, c: char) -> bool {
    forall|i: int| 0 <= i < s.len() ==> s[i] != c
}

/// A first line never holds a line break.
pub proof fn lemma_first_line_lacks_newline(s: Seq<char>)
    ensures
        lacks_char(first_line(s), '\n'),
    decreases s.len(),
{
    if s.len() > 0 && s[0] != '\n' {
        lemma_first_line_lacks_newline(s.drop_first());
    }
}

/// A string without line breaks is its own first line.
pub proof fn lemma_first_line_whole(s: Seq<char>)
    requires
        forall|j: int| 0 <= j < s.len() ==> s[j] != '\n',
    ensures
        first_line(s) == s,
{
    lemma_first_line_prefix(s, s.len() as int);
    assert(s.take(s.len() as int) =~= s);
}

/// Splitting on a separator character; splitting the empty string yields
/// one empty field.
pub open spec fn split_char(s: Seq<char>, sep: char) -> Seq<Seq<char>>
    decreases s.len(),
{
    if s.len() == 0 {
        seq![s]
    } else if s.last() == sep {
        split_char(s.drop_last(), sep).push(Seq::empty())
    } else {
        let rest = split_char(s.drop_last(), sep);
        rest.update(rest.len() - 1, rest.last().push(s.last()))
    }
}

pub proof fn lemma_split_char_len(s: Seq<char>, sep: char)
    ensures
        split_char(s, sep).len() >= 1,
    decreases s.len(),
{
    if s.len() > 0 {
        lemma_split_char_len(s.drop_last(), sep);
    }
}

/// A string without the separator is a single field.
pub proof fn lemma_split_char_no_sep(s: Seq<char>, sep: char)
    requires
        forall|i: int| 0 <= i < s.len() ==> s[i] != sep,
    ensures
        split_char(s, sep) == seq![s],
    decreases s.len(),
{
    if s.len() == 0 {
    } else {
        lemma_split_char_no_sep(s.drop_last(), sep);
        assert(split_char(s, sep) =~~= seq![s]) by {
            assert(s.drop_last().push(s.last()) =~= s);
        }
    }
}

/// No field of a split holds the separator; and a character absent from
/// the string is absent from every field.
pub proof fn lemma_split_char_fields_lack(s: Seq<char>, sep: char, c: char)
    requires
        c == sep || lacks_char(s, c),
    ensures
        forall|k: int|
            0 <= k < split_char(s, sep).len() ==> lacks_char(#[trigger] split_char(s, sep)[k], c),
    decreases s.len(),
{
    if s.len() == 0 {
        assert(lacks_char(split_char(s, sep)[0], c));
    } else {
        lemma_split_char_fields_lack(s.drop_last(), sep, c);
        let rest = split_char(s.drop_last(), sep);
        lemma_split_char_len(s.drop_last(), sep);
        if s.last() == sep {
            assert(lacks_char(Seq::<char>::empty(), c));
        } else {
            assert(s.last() != c);
            assert(lacks_char(rest.last().push(s.last()), c));
        }
    }
}

/// Appending a separator and then a separator-free tail appends one field.
pub proof fn lemma_split_char_append(a: Seq<char>, b: Seq<char>, sep: char)
    requires
        forall|i: int| 0 <= i < b.len() ==> b[i] != sep,
    ensures
        split_char(a.push(sep) + b, sep) == split_char(a, sep).push(b),
    decreases b.len(),
{
    lemma_split_char_len(a, sep);
    if b.len() == 0 {
        assert(a.push(sep) + b =~= a.push(sep));
        assert(a.push(sep).drop_last() =~= a);
        assert(split_char(a.push(sep), sep) =~~= split_char(a, sep).push(b));
    } else {
        let b0 = b.drop_last();
        lemma_split_char_append(a, b0, sep);
        let s = a.push(sep) + b;
        assert(s.drop_last() =~= a.push(sep) + b0);
        assert(s.last() == b.last());
        assert(split_char(s, sep) =~~= split_char(a, sep).push(b)) by {
            assert(b0.push(b.last()) =~= b);
        }
    }
}

/// Split a string on a separator character, yielding the fields in order.
pub fn split_str_on(s: &str, sep: char) -> (parts: Vec<String>)
    ensures
        parts@.len() == split_char(s@, sep).len(),
        forall|k: int| 0 <= k < parts@.len() ==> parts@[k]@ == split_char(s@, sep)[k],
{
    let n = s.unicode_len();
    let mut parts: Vec<String> = Vec::new();
    let mut cur = String::new();
    let mut i: usize = 0;
    proof {
        assert(s@.take(0) =~= Seq::<char>::empty());
    }
    while i < n
        invariant
            i <= n,
            n == s@.len(),
            parts@.len() + 1 == split_char(s@.take(i as int), sep).len(),
            forall|k: int|
                0 <= k < parts@.len() ==> parts@[k]@ == split_char(s@.take(i as int), sep)[k],
            cur@ == split_char(s@.take(i as int), sep).last(),
        decreases n - i,
    {
        let c = s.get_char(i);
        proof {
            assert(s@.take(i as int + 1).drop_last() =~= s@.take(i as int));
            assert(s@.take(i as int + 1).last() == s@[i as int]);
            lemma_split_char_len(s@.take(i as int), sep);
        }
        if c == sep {
            parts.push(cur);
            cur = String::new();
        } else {
            push_char(&mut cur, c);
        }
        i += 1;
    }
    proof {
        assert(s@.take(n as int) =~= s@);
        lemma_split_char_len(s@, sep);
    }
    parts.push(cur);
    parts
}

/// `s` with its leading whitespace removed.
pub open spec fn trim_start(s: Seq<char>) -> Seq<char>
    decreases s.len(),
{
    if s.len() > 0 && is_space_char(s[0]) {
        trim_start(s.drop_first())
    } else {
        s
    }
}

/// `s` with its trailing whitespace removed.
pub open spec fn trim_end(s: Seq<char>) -> Seq<char>
    decreases s.len(),
{
    if s.len() > 0 && is_space_char(s.last()) {
        trim_end(s.drop_last())
    } else {
        s
    }
}

pub open spec fn trim(s: Seq<char>) -> Seq<char> {
    trim_end(trim_start(s))
}

proof fn lemma_trim_start_skip(s: Seq<char>, a: int)
    requires
        0 <= a <= s.len(),
        forall|j: int| 0 <= j < a ==> is_space_char(s[j]),
        a == s.len() || !is_space_char(s[a]),
    ensures
        trim_start(s) == s.skip(a),
    decreases a,
{
    if a == 0 {
        assert(s.skip(0) =~= s);
    } else {
        lemma_trim_start_skip(s.drop_first(), a - 1);
        assert(s.drop_first().skip(a - 1) =~= s.skip(a));
    }
}

proof fn lemma_trim_end_take(s: Seq<char>, b: int)
    requires
        0 <= b <= s.len(),
        forall|j: int| b <= j < s.len() ==> is_space_char(s[j]),
        b == 0 || !is_space_char(s[b - 1]),
    ensures
        trim_end(s) == s.take(b),
    decreases s.len() - b,
{
    if b == s.len() {
        assert(s.take(b) =~= s);
    } else {
        lemma_trim_end_take(s.drop_last(), b);
        assert(s.drop_last().take(b) =~= s.take(b));
    }
}

/// A string whose ends hold no whitespace trims to itself.
pub proof fn lemma_trim_stable(s: Seq<char>)
    requires
        s.len() == 0 || (!is_space_char(s[0]) && !is_space_char(s.last())),
    ensures
        trim(s) == s,
{
    lemma_trim_start_skip(s, 0);
    assert(s.skip(0) =~= s);
    if s.len() == 0 {
        lemma_trim_end_take(s, 0);
        assert(s.take(0) =~= s);
    } else {
        lemma_trim_end_take(s, s.len() as int);
        assert(s.take(s.len() as int) =~= s);
    }
}

proof fn lemma_trim_start_lacks(s: Seq<char>, c: char)
    requires
        lacks_char(s, c),
    ensures
        lacks_char(trim_start(s), c),
    decreases s.len(),
{
    if s.len() > 0 && is_space_char(s[0]) {
        assert(lacks_char(s.drop_first(), c));
        lemma_trim_start_lacks(s.drop_first(), c);
    }
}

proof fn lemma_trim_end_lacks(s: Seq<char>, c: char)
    requires
        lacks_char(s, c),
    ensures
        lacks_char(trim_end(s), c),
    decreases s.len(),
{
    if s.len() > 0 && is_space_char(s.last()) {
        assert(lacks_char(s.drop_last(), c));
        lemma_trim_end_lacks(s.drop_last(), c);
    }
}

/// A character absent from the string is absent from its trimmed form.
pub proof fn lemma_trim_lacks(s: Seq<char>, c: char)
    requires
        lacks_char(s, c),
    ensures
        lacks_char(trim(s), c),
{
    lemma_trim_start_lacks(s, c);
    lemma_trim_end_lacks(trim_start(s), c);
}

proof fn lemma_trim_start_first(s: Seq<char>)
    ensures
        trim_start(s).len() == 0 || !is_space_char(trim_start(s)[0]),
    decreases s.len(),
{
    if s.len() > 0 && is_space_char(s[0]) {
        lemma_trim_start_first(s.drop_first());
    }
}

proof fn lemma_trim_end_prefix(s: Seq<char>)
    ensures
        trim_end(s).len() <= s.len(),
        forall|i: int| 0 <= i < trim_end(s).len() ==> trim_end(s)[i] == s[i],
        trim_end(s).len() == 0 || !is_space_char(trim_end(s).last()),
    decreases s.len(),
{
    if s.len() > 0 && is_space_char(s.last()) {
        lemma_trim_end_prefix(s.drop_last());
        assert forall|i: int| 0 <= i < trim_end(s).len() implies trim_end(s)[i] == s[i] by {
            assert(trim_end(s)[i] == s.drop_last()[i]);
        }
    }
}

/// A trimmed string is empty or bare of whitespace at both ends, so
/// trimming it again changes nothing.
pub proof fn lemma_trim_ends_bare(s: Seq<char>)
    ensures
        trim(s).len() == 0 || (!is_space_char(trim(s)[0]) && !is_space_char(trim(s).last())),
{
    lemma_trim_start_first(s);
    lemma_trim_end_prefix(trim_start(s));
}

/// Remove leading and trailing whitespace.
pub fn trim_str(s: &str) -> (r: String)
    ensures
        r@ == trim(s@),
{
    let n = s.unicode_len();
    let mut a: usize = 0;
    while a < n && is_space(s.get_char(a))
        invariant
            a <= n,
            n == s@.len(),
            forall|j: int| 0 <= j < a ==> is_space_char(s@[j]),
        decreases n - a,
    {
        a += 1;
    }
    proof {
        lemma_trim_start_skip(s@, a as int);
    }
    let mut b: usize = n;
    while b > a && is_space(s.get_char(b - 1))
        invariant
            a <= b <= n,
            n == s@.len(),
            forall|j: int| b <= j < n ==> is_space_char(s@[j]),
        decreases b,
    {
        b -= 1;
    }
    proof {
        let t = s@.skip(a as int);
        lemma_trim_end_take(t, b - a as int);
        assert(t.take(b - a as int) =~= s@.subrange(a as int, b as int));
    }
    s.substring_char(a, b).to_owned()
}

fn is_space(c: char) -> (r: bool)
    ensures
        r == is_space_char(c),
{
    c == ' ' || c == '\t' || c == '\r' || c == '\n'
}

/// The first whitespace-delimited token of `s`, empty if there is none.
pub open spec fn take_until_space(s: Seq<char>) -> Seq<char>
    decreases s.len(),
{
    if s.len() > 0 && !is_space_char(s[0]) {
        seq![s[0]] + take_until_space(s.drop_first())
    } else {
        Seq::empty()
    }
}

pub open spec fn first_token(s: Seq<char>) -> Seq<char> {
    take_until_space(trim_start(s))
}

proof fn lemma_take_until_space_prefix(s: Seq<char>, b: int)
    requires
        0 <= b <= s.len(),
        forall|j: int| 0 <= j < b ==> !is_space_char(s[j]),
        b == s.len() || is_space_char(s[b]),
    ensures
        take_until_space(s) == s.take(b),
    decreases b,
{
    if s.len() == 0 || b == 0 {
        assert(s.take(0) =~= Seq::<char>::empty());
    } else {
        lemma_take_until_space_prefix(s.drop_first(), b - 1);
        assert(seq![s[0]] + s.drop_first().take(b - 1) =~= s.take(b));
    }
}

/// Extract the first whitespace-delimited token.
pub fn first_token_str(s: &str) -> (r: String)
    ensures
        r@ == first_token(s@),
{
    let n = s.unicode_len();
    let mut a: usize = 0;
    while a < n && is_space(s.get_char(a))
        invariant
            a <= n,
            n == s@.len(),
            forall|j: int| 0 <= j < a ==> is_space_char(s@[j]),
        decreases n - a,
    {
        a += 1;
    }
    proof {
        lemma_trim_start_skip(s@, a as int);
    }
    let mut b: usize = a;
    while b < n && !is_space(s.get_char(b))
        invariant
            a <= b <= n,
            n == s@.len(),
            forall|j: int| a <= j < b ==> !is_space_char(s@[j]),
        decreases n - b,
    {
        b += 1;
    }
    proof {
        let t = s@.skip(a as int);
        lemma_take_until_space_prefix(t, b - a as int);
        assert(t.take(b - a as int) =~= s@.subrange(a as int, b as int));
    }
    s.substring_char(a, b).to_owned()
}

/// Extract the first line: the characters before the first line break.
pub fn first_line_str(s: &str) -> (r: String)
    ensures
        r@ == first_line(s@),
{
    let n = s.unicode_len();
    let mut i: usize = 0;
    while i < n && s.get_char(i) != '\n'
        invariant
            i <= n,
            n == s@.len(),
            forall|j: int| 0 <= j < i ==> s@[j] != '\n',
        decreases n - i,
    {
        i += 1;
    }
    proof {
        lemma_first_line_prefix(s@, i as int);
        assert(s@.take(i as int) =~= s@.subrange(0, i as int));
    }
    s.substring_char(0, i).to_owned()
}

} // verus!
