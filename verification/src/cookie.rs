//! The access token in a `cookie` request header.
//!
//! The header is split at each occurrence of `access_token_cookie=`, as `str::split`
//! splits at a pattern, and the token is the second piece: what follows the first
//! occurrence, up to the next occurrence or the end of the header.
use vstd::prelude::*;

verus! {

/// The text that introduces the access token in the cookie header.
pub open spec fn marker() -> Seq<char> {
    "access_token_cookie="@
}

/// Whether `m` occurs in `s` at position `i`.
pub open spec fn occurs_at(s: Seq<char>, m: Seq<char>, i: int) -> bool {
    0 <= i && i + m.len() <= s.len() && s.subrange(i, i + m.len()) == m
}

/// The first position, from `from` on, where `m` occurs in `s`.
pub open spec fn find(s: Seq<char>, m: Seq<char>, from: int) -> Option<int>
    decreases s.len() + 1 - from,
{
    if from < 0 || from + m.len() > s.len() {
        None
    } else if occurs_at(s, m, from) {
        Some(from)
    } else {
        find(s, m, from + 1)
    }
}

/// The second piece of `s` split at `m`: what follows the first occurrence of `m`, up
/// to the next occurrence or the end; none where `m` does not occur.
pub open spec fn second_piece(s: Seq<char>, m: Seq<char>) -> Option<Seq<char>> {
    match find(s, m, 0) {
        None => None,
        Some(i) => {
            let rest = s.skip(i + m.len());
            match find(rest, m, 0) {
                None => Some(rest),
                Some(j) => Some(rest.take(j)),
            }
        },
    }
}

/// A position that `find` gives holds an occurrence, at or after `from`.
proof fn lemma_find_occurs(s: Seq<char>, m: Seq<char>, from: int)
    ensures
        find(s, m, from) matches Some(i) ==> from <= i && occurs_at(s, m, i),
    decreases s.len() + 1 - from,
{
    if from < 0 || from + m.len() > s.len() {
    } else if occurs_at(s, m, from) {
    } else {
        lemma_find_occurs(s, m, from + 1);
    }
}

/// The characters of `s`, one by one.
fn chars_of(s: &str) -> (v: Vec<char>)
    ensures
        v@ == s@,
{
    let n = s.unicode_len();
    let mut v: Vec<char> = Vec::new();
    let mut i: usize = 0;
    while i < n
        invariant
            n == s@.len(),
            i <= n,
            v@ == s@.take(i as int),
        decreases n - i,
    {
        let c = s.get_char(i);
        proof {
            assert(s@.take(i + 1) =~= s@.take(i as int).push(c));
        }
        v.push(c);
        i = i + 1;
    }
    proof {
        assert(s@.take(n as int) =~= s@);
    }
    v
}

/// The first position, from `from` on, where `m` occurs in `s`.
fn find_from(s: &Vec<char>, m: &Vec<char>, from: usize) -> (r: Option<usize>)
    ensures
        r matches Some(i) ==> find(s@, m@, from as int) == Some(i as int),
        r is None ==> find(s@, m@, from as int) is None,
{
    let mut i = from;
    while i <= s.len() && m.len() <= s.len() - i
        invariant
            from <= i,
            find(s@, m@, from as int) == find(s@, m@, i as int),
        decreases s.len() + 1 - i,
    {
        let mut k: usize = 0;
        let mut same = true;
        while k < m.len()
            invariant
                i + m.len() <= s.len(),
                k <= m.len(),
                same ==> forall|q: int| 0 <= q < k ==> s@[i + q] == m@[q],
                !same ==> !occurs_at(s@, m@, i as int),
                !same ==> 0 < m.len(),
            decreases m.len() - k,
        {
            if s[i + k] != m[k] {
                proof {
                    assert(s@.subrange(i as int, i + m.len())[k as int] == s@[i + k]);
                }
                same = false;
            }
            k = k + 1;
        }
        if same {
            proof {
                assert(s@.subrange(i as int, i + m.len()) =~= m@);
            }
            return Some(i);
        }
        i = i + 1;
    }
    None
}

/// The access token of a cookie header: the second piece of the header split at
/// `access_token_cookie=`, or none where the header does not hold that text.
pub fn access_token(cookie: &str) -> (token: Option<String>)
    ensures
        token is None <==> second_piece(cookie@, marker()) is None,
        token matches Some(t) ==> second_piece(cookie@, marker()) == Some(t@),
{
    let s = chars_of(cookie);
    let m = chars_of("access_token_cookie=");
    proof {
        reveal_strlit("access_token_cookie=");
        lemma_find_occurs(s@, m@, 0);
    }
    match find_from(&s, &m, 0) {
        None => None,
        Some(i) => {
            assert(occurs_at(s@, m@, i as int));
            assert(i + m@.len() <= s@.len() && s@.len() == s.len() && m@.len() == m.len());
            let start = i + m.len();
            let ghost rest = s@.skip(start as int);
            let r = chars_of(cookie.substring_char(start, s.len()));
            proof {
                assert(r@ =~= rest);
                lemma_find_occurs(rest, m@, 0);
            }
            let end = match find_from(&r, &m, 0) {
                None => s.len(),
                Some(j) => start + j,
            };
            proof {
                assert(cookie@.subrange(start as int, end as int) =~= match find(rest, marker(), 0) {
                    None => rest,
                    Some(j) => rest.take(j),
                });
            }
            Some(String::from_str(cookie.substring_char(start, end)))
        },
    }
}

} // verus!
