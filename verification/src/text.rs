//! Text helpers: characters of a string, building strings, JSON escaping.
use vstd::prelude::*;
use vstd::string::StringExecFns;
use vstd::std_specs::iter::IteratorSpec;

verus! {

broadcast use vstd::string::group_string_axioms;

/// Appends one character to a string (`String::push`).
#[verifier::external_body]
pub(crate) fn push_char(s: &mut String, c: char)
    ensures
        final(s)@ == old(s)@.push(c),
{
    s.push(c);
}

/// The characters of `s`, in order.
pub fn chars_of(s: &str) -> (r: Vec<char>)
    ensures
        r@ == s@,
{
    let mut it = s.chars();
    let mut r: Vec<char> = Vec::new();
    loop
        invariant
            r@ + it.remaining() == s@,
            it.obeys_prophetic_iter_laws(),
            it.decrease() is Some,
        decreases it.decrease()->0,
    {
        let ghost rem = it.remaining();
        match it.next() {
            Some(c) => {
                proof {
                    assert(rem.len() > 0);
                    assert(r@.push(c) + rem.drop_first() =~= r@ + rem);
                }
                r.push(c);
            },
            None => {
                proof {
                    assert(rem.len() == 0);
                    assert(r@ + rem =~= r@);
                }
                return r;
            },
        }
    }
}

/// A string holding the characters `cs`.
pub fn string_of(cs: &Vec<char>) -> (r: String)
    ensures
        r@ == cs@,
{
    let mut r = String::new();
    let mut i: usize = 0;
    while i < cs.len()
        invariant
            i <= cs@.len(),
            r@ == cs@.take(i as int),
        decreases cs@.len() - i,
    {
        push_char(&mut r, cs[i]);
        proof {
            assert(cs@.take(i as int + 1) =~= cs@.take(i as int).push(cs@[i as int]));
        }
        i = i + 1;
    }
    proof {
        assert(cs@.take(cs@.len() as int) =~= cs@);
    }
    r
}

/// JSON escape of one character: a backslash before `\` and `"`.
pub open spec fn json_escape_char(c: char) -> Seq<char> {
    if c == '\\' {
        seq!['\\', '\\']
    } else if c == '"' {
        seq!['\\', '"']
    } else {
        seq![c]
    }
}

/// `s` with every `\` and `"` escaped by a backslash.
pub open spec fn json_escaped(s: Seq<char>) -> Seq<char>
    decreases s.len(),
{
    if s.len() == 0 {
        Seq::empty()
    } else {
        json_escaped(s.drop_last()) + json_escape_char(s.last())
    }
}

/// JSON text with its escapes removed: a backslash stands for the
/// character after it.
pub open spec fn json_unescaped(t: Seq<char>) -> Seq<char>
    decreases t.len(),
{
    if t.len() == 0 {
        Seq::empty()
    } else if t[0] == '\\' && t.len() >= 2 {
        seq![t[1]] + json_unescaped(t.skip(2))
    } else {
        seq![t[0]] + json_unescaped(t.skip(1))
    }
}

proof fn lemma_json_escaped_front(s: Seq<char>)
    requires
        s.len() > 0,
    ensures
        json_escaped(s) == json_escape_char(s[0]) + json_escaped(s.skip(1)),
    decreases s.len(),
{
    if s.len() == 1 {
        assert(s.drop_last() =~= Seq::<char>::empty());
        assert(s.skip(1) =~= Seq::<char>::empty());
        assert(json_escaped(s.skip(1)) == Seq::<char>::empty());
        assert(json_escaped(s) =~= json_escape_char(s[0]) + json_escaped(s.skip(1)));
    } else {
        lemma_json_escaped_front(s.drop_last());
        assert(s.drop_last().skip(1) =~= s.skip(1).drop_last());
        assert(s.skip(1).last() == s.last());
        assert(s.drop_last()[0] == s[0]);
        assert(json_escaped(s) =~= json_escape_char(s[0]) + json_escaped(s.skip(1)));
    }
}

/// Removing the escapes of escaped text gives the text back.
pub proof fn lemma_json_escape_reverses(s: Seq<char>)
    ensures
        json_unescaped(json_escaped(s)) == s,
    decreases s.len(),
{
    if s.len() > 0 {
        lemma_json_escaped_front(s);
        lemma_json_escape_reverses(s.skip(1));
        let e = json_escape_char(s[0]);
        let r = json_escaped(s.skip(1));
        let t = e + r;
        if e.len() == 2 {
            assert(t[0] == '\\' && t[1] == s[0]);
            assert(t.skip(2) =~= r);
        } else {
            assert(t[0] == s[0] && s[0] != '\\');
            assert(t.skip(1) =~= r);
        }
        assert(seq![s[0]] + s.skip(1) =~= s);
    }
}

/// Number of backslashes and double quotes in `s`.
pub open spec fn special_count(s: Seq<char>) -> nat
    decreases s.len(),
{
    if s.len() == 0 {
        0
    } else {
        special_count(s.drop_last()) + if s.last() == '\\' || s.last() == '"' { 1nat } else { 0nat }
    }
}

/// Escaping adds exactly one character per backslash or double quote.
pub proof fn lemma_json_escape_length(s: Seq<char>)
    ensures
        json_escaped(s).len() == s.len() + special_count(s),
    decreases s.len(),
{
    if s.len() > 0 {
        lemma_json_escape_length(s.drop_last());
    }
}

/// Escapes backslashes and double quotes for a JSON string literal.
pub fn json_escape(s: &str) -> (r: String)
    ensures
        r@ == json_escaped(s@),
{
    let cs = chars_of(s);
    let mut r = String::new();
    let mut i: usize = 0;
    while i < cs.len()
        invariant
            cs@ == s@,
            i <= cs@.len(),
            r@ == json_escaped(cs@.take(i as int)),
        decreases cs@.len() - i,
    {
        let c = cs[i];
        proof {
            assert(cs@.take(i as int + 1).drop_last() =~= cs@.take(i as int));
        }
        if c == '\\' {
            push_char(&mut r, '\\');
            push_char(&mut r, '\\');
        } else if c == '"' {
            push_char(&mut r, '\\');
            push_char(&mut r, '"');
        } else {
            push_char(&mut r, c);
        }
        proof {
            assert(r@ =~= json_escaped(cs@.take(i as int)) + json_escape_char(c));
        }
        i = i + 1;
    }
    proof {
        assert(cs@.take(cs@.len() as int) =~= cs@);
    }
    r
}

} // verus!
