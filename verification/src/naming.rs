use vstd::prelude::*;

verus! {

/// What `char::is_alphabetic` answers for a character: whether it has the
/// Unicode `Alphabetic` property.
pub uninterp spec fn unicode_alphabetic(c: char) -> bool;

/// What `char::is_numeric` answers for a character: whether its Unicode
/// general category is one of the number categories.
pub uninterp spec fn unicode_numeric(c: char) -> bool;

/// Calls `char::is_alphabetic`. The result is the Unicode `Alphabetic`
/// property of `c`; among ASCII characters exactly the letters `a-z`, `A-Z`
/// have it.
#[verifier::external_body]
fn char_is_alphabetic(c: char) -> (res: bool)
    ensures
        res == unicode_alphabetic(c),
        (c as u32) < 128 ==> (res <==> is_ascii_letter(c)),
{
    c.is_alphabetic()
}

/// Calls `char::is_numeric`. The result says whether `c` lies in a Unicode
/// number category; among ASCII characters exactly the digits `0-9` do.
#[verifier::external_body]
fn char_is_numeric(c: char) -> (res: bool)
    ensures
        res == unicode_numeric(c),
        (c as u32) < 128 ==> (res <==> is_ascii_digit(c)),
{
    c.is_numeric()
}

pub open spec fn is_ascii_letter(c: char) -> bool {
    (97 <= (c as u32) <= 122) || (65 <= (c as u32) <= 90)
}

pub open spec fn is_ascii_digit(c: char) -> bool {
    48 <= (c as u32) <= 57
}

/// `p` is a prefix of `s`.
pub open spec fn has_prefix(s: Seq<char>, p: Seq<char>) -> bool {
    p.len() <= s.len() && s.subrange(0, p.len() as int) == p
}

/// A character that may appear in a procedure name.
pub open spec fn is_procedure_name_char(c: char) -> bool {
    unicode_alphabetic(c) || unicode_numeric(c) || c == '_' || c == '-'
}

/// A character that may appear in a router prefix (before its final `.`).
pub open spec fn is_prefix_char(c: char) -> bool {
    unicode_alphabetic(c) || unicode_numeric(c) || c == '_'
}

/// Names that a procedure may not take: the empty name, `ws`, names starting
/// with `rpc` or `rspc`, and names holding a character other than a letter,
/// a digit, `_` or `-`.
pub open spec fn invalid_procedure_name(s: Seq<char>) -> bool {
    ||| s.len() == 0
    ||| s == seq!['w', 's']
    ||| has_prefix(s, seq!['r', 'p', 'c'])
    ||| has_prefix(s, seq!['r', 's', 'p', 'c'])
    ||| !(forall|i: int| 0 <= i < s.len() ==> #[trigger] is_procedure_name_char(s[i]))
}

/// The prefix under which a router is merged: `s` itself when it already ends
/// in `.`, else `s` followed by `.`.
pub open spec fn normalized_prefix(s: Seq<char>) -> Seq<char> {
    if s.len() > 0 && s.last() == '.' {
        s
    } else {
        s.push('.')
    }
}

/// The rejection rule applied to a normalized prefix `p` (one that ends in
/// `.`): the part before the final `.` is empty, `p` is `ws.`, `p` starts
/// with `rpc.` or `rspc.`, or the part before the final `.` holds a
/// character other than a letter, a digit or `_`.
pub open spec fn invalid_normalized_prefix(p: Seq<char>) -> bool {
    ||| p.len() <= 1
    ||| p == seq!['w', 's', '.']
    ||| has_prefix(p, seq!['r', 'p', 'c', '.'])
    ||| has_prefix(p, seq!['r', 's', 'p', 'c', '.'])
    ||| !(forall|i: int| 0 <= i < p.len() - 1 ==> #[trigger] is_prefix_char(p[i]))
}

/// Every character of `s` is an ASCII character.
pub open spec fn all_ascii(s: Seq<char>) -> bool {
    forall|i: int| 0 <= i < s.len() ==> (#[trigger] s[i] as u32) < 128
}

/// An ASCII character that may appear in a procedure name.
pub open spec fn is_ascii_procedure_name_char(c: char) -> bool {
    is_ascii_letter(c) || is_ascii_digit(c) || c == '_' || c == '-'
}

/// An ASCII character that may appear in a router prefix.
pub open spec fn is_ascii_prefix_char(c: char) -> bool {
    is_ascii_letter(c) || is_ascii_digit(c) || c == '_'
}

/// The procedure-name rule for names made of ASCII characters only.
pub open spec fn invalid_ascii_procedure_name(s: Seq<char>) -> bool {
    ||| s.len() == 0
    ||| s == seq!['w', 's']
    ||| has_prefix(s, seq!['r', 'p', 'c'])
    ||| has_prefix(s, seq!['r', 's', 'p', 'c'])
    ||| !(forall|i: int| 0 <= i < s.len() ==> #[trigger] is_ascii_procedure_name_char(s[i]))
}

/// The prefix rule for normalized prefixes made of ASCII characters only.
pub open spec fn invalid_ascii_normalized_prefix(p: Seq<char>) -> bool {
    ||| p.len() <= 1
    ||| p == seq!['w', 's', '.']
    ||| has_prefix(p, seq!['r', 'p', 'c', '.'])
    ||| has_prefix(p, seq!['r', 's', 'p', 'c', '.'])
    ||| !(forall|i: int| 0 <= i < p.len() - 1 ==> #[trigger] is_ascii_prefix_char(p[i]))
}

/// The first `n` characters of `s.push(c)` are those of `s`, when `n` is at
/// most the length of `s`.
proof fn lemma_push_keeps_prefix(s: Seq<char>, c: char, p: Seq<char>)
    requires
        p.len() <= s.len(),
    ensures
        has_prefix(s.push(c), p) == has_prefix(s, p),
{
    assert(s.push(c).subrange(0, p.len() as int) =~= s.subrange(0, p.len() as int));
}

/// Extending an allowed procedure name by a character that names may hold
/// keeps it allowed, unless the result is exactly one of the reserved names
/// `ws`, `rpc` or `rspc`. So, for example, `news` is allowed as `new` is.
pub proof fn lemma_extend_allowed_name(s: Seq<char>, c: char)
    requires
        !invalid_procedure_name(s),
        is_procedure_name_char(c),
        s.push(c) != seq!['w', 's'],
        s.push(c) != seq!['r', 'p', 'c'],
        s.push(c) != seq!['r', 's', 'p', 'c'],
    ensures
        !invalid_procedure_name(s.push(c)),
{
    let t = s.push(c);
    assert forall|i: int| 0 <= i < t.len() implies #[trigger] is_procedure_name_char(t[i]) by {
        if i < s.len() {
            assert(t[i] == s[i]);
        }
    }
    lemma_extend_prefixes(s, c);
}

/// The same for names made of ASCII characters, by the ASCII rule.
pub proof fn lemma_extend_allowed_ascii_name(s: Seq<char>, c: char)
    requires
        !invalid_ascii_procedure_name(s),
        is_ascii_procedure_name_char(c),
        s.push(c) != seq!['w', 's'],
        s.push(c) != seq!['r', 'p', 'c'],
        s.push(c) != seq!['r', 's', 'p', 'c'],
    ensures
        !invalid_ascii_procedure_name(s.push(c)),
{
    let t = s.push(c);
    assert forall|i: int| 0 <= i < t.len() implies #[trigger] is_ascii_procedure_name_char(t[i]) by {
        if i < s.len() {
            assert(t[i] == s[i]);
        }
    }
    lemma_extend_prefixes(s, c);
}

/// A non-empty name that is not `rpc` or `rspc` followed by more, extended
/// by a character, starts with `rpc` or `rspc` only if it is exactly that.
proof fn lemma_extend_prefixes(s: Seq<char>, c: char)
    requires
        s.len() > 0,
        !has_prefix(s, seq!['r', 'p', 'c']),
        !has_prefix(s, seq!['r', 's', 'p', 'c']),
        s.push(c) != seq!['r', 'p', 'c'],
        s.push(c) != seq!['r', 's', 'p', 'c'],
    ensures
        !has_prefix(s.push(c), seq!['r', 'p', 'c']),
        !has_prefix(s.push(c), seq!['r', 's', 'p', 'c']),
{
    let t = s.push(c);
    let rpc = seq!['r', 'p', 'c'];
    let rspc = seq!['r', 's', 'p', 'c'];
    if s.len() >= 3 {
        lemma_push_keeps_prefix(s, c, rpc);
    } else if has_prefix(t, rpc) {
        assert(t.len() == 3);
        assert(t =~= t.subrange(0, 3));
    }
    if s.len() >= 4 {
        lemma_push_keeps_prefix(s, c, rspc);
    } else if has_prefix(t, rspc) {
        assert(t.len() == 4);
        assert(t =~= t.subrange(0, 4));
    }
}

/// The characters of `s`, in order.
fn chars_of(s: &str) -> (v: Vec<char>)
    ensures
        v@ == s@,
{
    let mut v: Vec<char> = Vec::new();
    for c in iter: s.chars()
        invariant
            iter.seq() == s@,
            v@ == iter.seq().take(iter.index() as int),
    {
        v.push(c);
    }
    v
}

/// Whether `v` starts with the characters of `p`.
fn starts_with_chars(v: &Vec<char>, p: &[char]) -> (res: bool)
    ensures
        res == has_prefix(v@, p@),
{
    if p.len() > v.len() {
        return false;
    }
    let mut i: usize = 0;
    while i < p.len()
        invariant
            p.len() <= v.len(),
            0 <= i <= p.len(),
            forall|j: int| 0 <= j < i ==> v@[j] == p@[j],
        decreases p.len() - i,
    {
        if v[i] != p[i] {
            assert(v@.subrange(0, p@.len() as int)[i as int] != p@[i as int]);
            return false;
        }
        i = i + 1;
    }
    assert(v@.subrange(0, p@.len() as int) =~= p@);
    true
}

/// Whether each of the first `n` characters of `v` may appear in a
/// procedure name (`extra_dash`) or in a router prefix (`!extra_dash`).
fn all_name_chars(v: &Vec<char>, n: usize, extra_dash: bool) -> (res: bool)
    requires
        n <= v@.len(),
    ensures
        extra_dash ==> (res == (forall|i: int|
            0 <= i < n ==> #[trigger] is_procedure_name_char(v@[i]))),
        !extra_dash ==> (res == (forall|i: int| 0 <= i < n ==> #[trigger] is_prefix_char(v@[i]))),
        (forall|i: int| 0 <= i < n ==> (#[trigger] v@[i] as u32) < 128) ==> (extra_dash ==> (res
            == (forall|i: int| 0 <= i < n ==> #[trigger] is_ascii_procedure_name_char(v@[i])))),
        (forall|i: int| 0 <= i < n ==> (#[trigger] v@[i] as u32) < 128) ==> (!extra_dash ==> (res
            == (forall|i: int| 0 <= i < n ==> #[trigger] is_ascii_prefix_char(v@[i])))),
{
    let mut i: usize = 0;
    while i < n
        invariant
            n <= v@.len(),
            0 <= i <= n,
            extra_dash ==> forall|j: int| 0 <= j < i ==> #[trigger] is_procedure_name_char(v@[j]),
            !extra_dash ==> forall|j: int| 0 <= j < i ==> #[trigger] is_prefix_char(v@[j]),
            forall|j: int|
                0 <= j < i && (v@[j] as u32) < 128 ==> (extra_dash
                    ==> #[trigger] is_ascii_procedure_name_char(v@[j])),
            forall|j: int|
                0 <= j < i && (v@[j] as u32) < 128 ==> (!extra_dash
                    ==> #[trigger] is_ascii_prefix_char(v@[j])),
        decreases n - i,
    {
        let c = v[i];
        let alphabetic = char_is_alphabetic(c);
        let numeric = char_is_numeric(c);
        let ok = alphabetic || numeric || c == '_' || (extra_dash && c == '-');
        if !ok {
            assert(extra_dash ==> !is_procedure_name_char(v@[i as int]));
            assert(!extra_dash ==> !is_prefix_char(v@[i as int]));
            assert((v@[i as int] as u32) < 128 ==> (extra_dash ==> !is_ascii_procedure_name_char(
                v@[i as int],
            )));
            assert((v@[i as int] as u32) < 128 ==> (!extra_dash ==> !is_ascii_prefix_char(
                v@[i as int],
            )));
            return false;
        }
        i = i + 1;
    }
    true
}

/// Tells whether `s` is a name that a procedure may not be registered under.
pub fn is_invalid_procedure_name(s: &str) -> (res: bool)
    ensures
        res == invalid_procedure_name(s@),
        all_ascii(s@) ==> res == invalid_ascii_procedure_name(s@),
{
    let v = chars_of(s);
    let ws = v.len() == 2 && v[0] == 'w' && v[1] == 's';
    assert(ws == (v@ == seq!['w', 's'])) by {
        if v@.len() == 2 && v@[0] == 'w' && v@[1] == 's' {
            assert(v@ =~= seq!['w', 's']);
        }
    }
    v.len() == 0 || ws || starts_with_chars(&v, &['r', 'p', 'c']) || starts_with_chars(
        &v,
        &['r', 's', 'p', 'c'],
    ) || !all_name_chars(&v, v.len(), true)
}

/// Whether `s` ends in `.`.
pub fn ends_with_dot(s: &str) -> (res: bool)
    ensures
        res == (s@.len() > 0 && s@.last() == '.'),
{
    let v = chars_of(s);
    v.len() > 0 && v[v.len() - 1] == '.'
}

/// Normalizes a router prefix to end in `.` and tells whether the result is
/// refused. A prefix that already ends in `.` is kept as it is (the caller
/// warns that this form is deprecated).
pub fn is_invalid_router_prefix(s: &str) -> (res: (String, bool))
    ensures
        res.0@ == normalized_prefix(s@),
        res.1 == invalid_normalized_prefix(res.0@),
        all_ascii(s@) ==> res.1 == invalid_ascii_normalized_prefix(res.0@),
{
    let mut p: String = s.to_owned();
    if !ends_with_dot(s) {
        proof {
            reveal_strlit(".");
        }
        p.append(".");
        assert(p@ =~= s@.push('.'));
    }
    let pv = chars_of(p.as_str());
    let ws = pv.len() == 3 && pv[0] == 'w' && pv[1] == 's' && pv[2] == '.';
    assert(ws == (pv@ == seq!['w', 's', '.'])) by {
        if pv@.len() == 3 && pv@[0] == 'w' && pv@[1] == 's' && pv@[2] == '.' {
            assert(pv@ =~= seq!['w', 's', '.']);
        }
    }
    proof {
        if all_ascii(s@) {
            assert forall|i: int| 0 <= i < pv@.len() - 1 implies (#[trigger] pv@[i] as u32) < 128 by {
                assert(pv@[i] == s@[i]);
            }
        }
    }
    let invalid = pv.len() <= 1 || ws || starts_with_chars(&pv, &['r', 'p', 'c', '.'])
        || starts_with_chars(&pv, &['r', 's', 'p', 'c', '.']) || !all_name_chars(
        &pv,
        pv.len() - 1,
        false,
    );
    (p, invalid)
}

/// A prefix given without its final `.` and the same prefix given with it are
/// merged under the same normalized prefix, and so are judged alike.
pub proof fn lemma_trailing_dot_same_prefix(s: Seq<char>)
    requires
        !(s.len() > 0 && s.last() == '.'),
    ensures
        normalized_prefix(s.push('.')) == normalized_prefix(s),
        normalized_prefix(s).last() == '.',
{
}

} // verus!
