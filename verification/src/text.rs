use vstd::prelude::*;
use vstd::string::*;
use vstd::utf8::*;

verus! {

/// The characters of `s`, in order.
pub fn chars_of(s: &str) -> (v: Vec<char>)
    ensures
        v@ == s@,
{
    broadcast use group_string_axioms;

    let mut v: Vec<char> = Vec::new();
    for c in it: s.chars()
        invariant
            it.seq() == s@,
            v@ == it.seq().take(it.index() as int),
    {
        v.push(c);
        assert(it.seq().take(it.index() + 1) == it.seq().take(it.index() as int).push(c));
    }
    assert(v@ == s@);
    v
}

/// Whether two strings hold the same characters.
pub fn same_text(a: &str, b: &str) -> (r: bool)
    ensures
        r == (a@ == b@),
{
    let x = a.as_bytes();
    let y = b.as_bytes();
    proof {
        encode_utf8_decode_utf8(a@);
        encode_utf8_decode_utf8(b@);
    }
    if x.len() != y.len() {
        return false;
    }
    let mut i: usize = 0;
    while i < x.len()
        invariant
            i <= x.len(),
            x.len() == y.len(),
            forall|k: int| 0 <= k < i ==> x@[k] == y@[k],
            x@ == encode_utf8(a@),
            y@ == encode_utf8(b@),
            decode_utf8(encode_utf8(a@)) == a@,
            decode_utf8(encode_utf8(b@)) == b@,
        decreases x.len() - i,
    {
        if x[i] != y[i] {
            return false;
        }
        i = i + 1;
    }
    assert(x@ =~= y@);
    true
}

/// Whether `t` stands in `s` at index `i` as a whole word: bounded on each
/// side by a space or by an end of `s`.
pub open spec fn is_token_at(s: Seq<char>, t: Seq<char>, i: int) -> bool {
    &&& 0 <= i
    &&& i + t.len() <= s.len()
    &&& s.subrange(i, i + t.len()) == t
    &&& (i == 0 || s[i - 1] == ' ')
    &&& (i + t.len() == s.len() || s[i + t.len()] == ' ')
}

/// Whether `t` is one of the words of the space-separated list `s`.
pub open spec fn has_token(s: Seq<char>, t: Seq<char>) -> bool {
    &&& t.len() > 0
    &&& !t.contains(' ')
    &&& exists|i: int| is_token_at(s, t, i)
}

fn has_space(t: &Vec<char>) -> (r: bool)
    ensures
        r == t@.contains(' '),
{
    let mut i: usize = 0;
    while i < t.len()
        invariant
            i <= t.len(),
            forall|k: int| 0 <= k < i ==> t@[k] != ' ',
        decreases t.len() - i,
    {
        if t[i] == ' ' {
            return true;
        }
        i = i + 1;
    }
    false
}

fn token_at(s: &Vec<char>, t: &Vec<char>, i: usize) -> (r: bool)
    requires
        i + t.len() <= s.len(),
    ensures
        r == is_token_at(s@, t@, i as int),
{
    if i > 0 && s[i - 1] != ' ' {
        return false;
    }
    if i + t.len() < s.len() && s[i + t.len()] != ' ' {
        return false;
    }
    let mut k: usize = 0;
    while k < t.len()
        invariant
            k <= t.len(),
            i + t.len() <= s.len(),
            forall|j: int| 0 <= j < k ==> s@[i + j] == t@[j],
        decreases t.len() - k,
    {
        if s[i + k] != t[k] {
            assert(s@.subrange(i as int, i + t.len())[k as int] != t@[k as int]);
            return false;
        }
        k = k + 1;
    }
    assert(s@.subrange(i as int, i + t.len()) =~= t@);
    true
}

/// Whether `token` is one of the words of the space-separated list `list`.
pub fn contains_token(list: &str, token: &str) -> (r: bool)
    ensures
        r == has_token(list@, token@),
{
    let s = chars_of(list);
    let t = chars_of(token);
    if t.len() == 0 || has_space(&t) || t.len() > s.len() {
        return false;
    }
    let last: usize = s.len() - t.len();
    let mut i: usize = 0;
    while i <= last
        invariant
            i <= last + 1,
            last == s.len() - t.len(),
            0 < t.len() <= s.len(),
            s@ == list@,
            t@ == token@,
            !t@.contains(' '),
            forall|k: int| 0 <= k < i ==> !is_token_at(s@, t@, k),
        decreases last + 1 - i,
    {
        if token_at(&s, &t, i) {
            return true;
        }
        i = i + 1;
    }
    false
}

} // verus!
