//! The path expressions of the JSON selection stage: `[0].users[1].profile`
//! is index 0, key `users`, index 1, key `profile`.
use vstd::prelude::*;
use crate::resolver::{digits_value, find_char, is_index};

verus! {

/// One step of a path.
#[derive(Debug, Clone, PartialEq, Eq)]
pub enum PathPart {
    Index(usize),
    Key(String),
}

/// Why a path could not be parsed.
#[derive(Debug, Clone, PartialEq, Eq)]
pub enum JsonPathError {
    /// The text between brackets is not an index.
    InvalidIndex { text: String },
}

/// A path step as a value: an index, or a key.
pub open spec fn part_view(p: PathPart) -> (bool, nat, Seq<char>) {
    match p {
        PathPart::Index(n) => (true, n as nat, Seq::empty()),
        PathPart::Key(k) => (false, 0, k@),
    }
}

/// The end of the key that starts at `j`: the next `.` or `[`, else the length.
pub open spec fn key_end(s: Seq<char>, j: int) -> int
    decreases s.len() - j,
{
    if j < 0 || j >= s.len() {
        if j < 0 { 0 } else { s.len() as int }
    } else if s[j] == '.' || s[j] == '[' {
        j
    } else {
        key_end(s, j + 1)
    }
}

/// `t` without one leading `+`.
pub open spec fn unsigned_digits(t: Seq<char>) -> Seq<char> {
    if t.len() > 0 && t[0] == '+' { t.subrange(1, t.len() as int) } else { t }
}

/// The index that `t` spells: an optional `+` and one or more digits, within
/// `usize`.
pub open spec fn index_of_text(t: Seq<char>) -> Option<nat> {
    if is_index(unsigned_digits(t)) && digits_value(unsigned_digits(t)) <= usize::MAX {
        Some(digits_value(unsigned_digits(t)))
    } else {
        None
    }
}

/// `r` with `pre` in front of its steps.
pub open spec fn prepend_parts(
    pre: Seq<(bool, nat, Seq<char>)>,
    r: Result<Seq<(bool, nat, Seq<char>)>, Seq<char>>,
) -> Result<Seq<(bool, nat, Seq<char>)>, Seq<char>> {
    match r {
        Ok(x) => Ok(pre + x),
        Err(e) => Err(e),
    }
}

/// The steps of path `s` from position `i` on, or the bracketed text that is
/// not an index. `[n]` is an index; `.key` a key (an empty one is skipped);
/// a key may also start without a dot.
pub open spec fn path_from(s: Seq<char>, i: int) -> Result<Seq<(bool, nat, Seq<char>)>, Seq<char>>
    decreases s.len() - i,
{
    if i < 0 || i >= s.len() {
        Ok(Seq::empty())
    } else if s[i] == '[' {
        let e = find_char(s, i + 1, ']');
        let text = s.subrange(i + 1, e);
        let next = if e < s.len() { e + 1 } else { s.len() as int };
        if e < i + 1 || e > s.len() {
            Ok(Seq::empty())
        } else {
            match index_of_text(text) {
                None => Err(text),
                Some(n) => prepend_parts(seq![(true, n, Seq::empty())], path_from(s, next)),
            }
        }
    } else if s[i] == '.' {
        let e = key_end(s, i + 1);
        if e < i + 1 || e > s.len() {
            Ok(Seq::empty())
        } else if e == i + 1 {
            path_from(s, e)
        } else {
            prepend_parts(seq![(false, 0nat, s.subrange(i + 1, e))], path_from(s, e))
        }
    } else {
        let e = key_end(s, i + 1);
        if e < i + 1 || e > s.len() {
            Ok(Seq::empty())
        } else {
            prepend_parts(seq![(false, 0nat, s.subrange(i, e))], path_from(s, e))
        }
    }
}

proof fn lemma_key_end_bounds(s: Seq<char>, j: int)
    requires
        0 <= j <= s.len(),
    ensures
        j <= key_end(s, j) <= s.len(),
    decreases s.len() - j,
{
    if j < s.len() && !(s[j] == '.' || s[j] == '[') {
        lemma_key_end_bounds(s, j + 1);
    }
}

proof fn lemma_find_bounds(s: Seq<char>, j: int, c: char)
    requires
        0 <= j <= s.len(),
    ensures
        j <= find_char(s, j, c) <= s.len(),
    decreases s.len() - j,
{
    if j < s.len() && s[j] != c {
        lemma_find_bounds(s, j + 1, c);
    }
}

fn scan_key_end(s: &str, len: usize, j: usize) -> (r: usize)
    requires
        len == s@.len(),
        j <= len,
    ensures
        r == key_end(s@, j as int),
        j <= r <= len,
{
    let mut k = j;
    while k < len
        invariant
            j <= k <= len,
            len == s@.len(),
            key_end(s@, j as int) == key_end(s@, k as int),
        decreases len - k,
    {
        let c = s.get_char(k);
        if c == '.' || c == '[' {
            return k;
        }
        k = k + 1;
    }
    k
}

fn scan_close(s: &str, len: usize, j: usize) -> (r: usize)
    requires
        len == s@.len(),
        j <= len,
    ensures
        r == find_char(s@, j as int, ']'),
        j <= r <= len,
{
    let mut k = j;
    while k < len
        invariant
            j <= k <= len,
            len == s@.len(),
            find_char(s@, j as int, ']') == find_char(s@, k as int, ']'),
        decreases len - k,
    {
        if s.get_char(k) == ']' {
            return k;
        }
        k = k + 1;
    }
    k
}

fn parse_index(t: &str) -> (r: Option<usize>)
    ensures
        r is Some <==> index_of_text(t@) is Some,
        r matches Some(n) ==> n == index_of_text(t@)->0,
{
    let n = t.unicode_len();
    let start: usize = if n > 0 && t.get_char(0) == '+' { 1 } else { 0 };
    let ghost d = t@.subrange(start as int, n as int);
    proof {
        assert(d =~= unsigned_digits(t@));
        assert(d.subrange(0, 0) =~= Seq::<char>::empty());
    }
    if n <= start {
        return None;
    }
    let mut acc: u128 = 0;
    let mut over = false;
    let mut k: usize = start;
    while k < n
        invariant
            start <= k <= n,
            n == t@.len(),
            d == t@.subrange(start as int, n as int),
            d == unsigned_digits(t@),
            forall|m: int| 0 <= m < k - start ==> '0' <= #[trigger] d[m] && d[m] <= '9',
            !over ==> acc == digits_value(d.subrange(0, k - start)) && acc <= usize::MAX,
            over ==> digits_value(d.subrange(0, k - start)) > usize::MAX,
        decreases n - k,
    {
        let c = t.get_char(k);
        if !('0' <= c && c <= '9') {
            proof {
                assert(d[k - start] == c);
            }
            return None;
        }
        proof {
            assert(d.subrange(0, k - start + 1).drop_last() =~= d.subrange(0, k - start));
        }
        if !over {
            acc = acc * 10 + (c as u128 - '0' as u128);
            if acc > usize::MAX as u128 {
                over = true;
            }
        }
        k = k + 1;
    }
    proof {
        assert(d.subrange(0, n - start) =~= d);
    }
    if over {
        None
    } else {
        Some(acc as usize)
    }
}

/// The steps of a path expression; see `path_from`.
pub fn parse_json_path(path: &str) -> (r: Result<Vec<PathPart>, JsonPathError>)
    ensures
        match path_from(path@, 0) {
            Ok(ps) => r matches Ok(v) && v@.len() == ps.len() && forall|i: int| 0 <= i < ps.len() ==> #[trigger] part_view(v@[i]) == ps[i],
            Err(t) => r matches Err(JsonPathError::InvalidIndex { text }) && text@ == t,
        },
{
    let len = path.unicode_len();
    let mut parts: Vec<PathPart> = Vec::new();
    let mut i: usize = 0;
    while i < len
        invariant
            i <= len,
            len == path@.len(),
            path_from(path@, 0) == prepend_parts(parts@.map_values(|p: PathPart| part_view(p)), path_from(path@, i as int)),
        decreases len - i,
    {
        let ghost pre = parts@.map_values(|p: PathPart| part_view(p));
        let c = path.get_char(i);
        if c == '[' {
            let e = scan_close(path, len, i + 1);
            let text = path.substring_char(i + 1, e);
            let next = if e < len { e + 1 } else { len };
            match parse_index(text) {
                None => {
                    return Err(JsonPathError::InvalidIndex { text: String::from_str(text) });
                },
                Some(n) => {
                    parts.push(PathPart::Index(n));
                    proof {
                        let tail = path_from(path@, next as int);
                        assert(parts@.map_values(|p: PathPart| part_view(p)) =~= pre + seq![(true, n as nat, Seq::<char>::empty())]);
                        if tail is Ok {
                            assert(pre + (seq![(true, n as nat, Seq::<char>::empty())] + tail->Ok_0) =~= (pre + seq![(true, n as nat, Seq::<char>::empty())]) + tail->Ok_0);
                        }
                    }
                    i = next;
                },
            }
        } else if c == '.' {
            let e = scan_key_end(path, len, i + 1);
            if e > i + 1 {
                let key = String::from_str(path.substring_char(i + 1, e));
                let ghost kv = key@;
                parts.push(PathPart::Key(key));
                proof {
                    let tail = path_from(path@, e as int);
                    assert(parts@.map_values(|p: PathPart| part_view(p)) =~= pre + seq![(false, 0nat, kv)]);
                    if tail is Ok {
                        assert(pre + (seq![(false, 0nat, kv)] + tail->Ok_0) =~= (pre + seq![(false, 0nat, kv)]) + tail->Ok_0);
                    }
                }
            }
            i = e;
        } else {
            let e = scan_key_end(path, len, i + 1);
            let key = String::from_str(path.substring_char(i, e));
            let ghost kv = key@;
            parts.push(PathPart::Key(key));
            proof {
                let tail = path_from(path@, e as int);
                assert(parts@.map_values(|p: PathPart| part_view(p)) =~= pre + seq![(false, 0nat, kv)]);
                if tail is Ok {
                    assert(pre + (seq![(false, 0nat, kv)] + tail->Ok_0) =~= (pre + seq![(false, 0nat, kv)]) + tail->Ok_0);
                }
            }
            i = e;
        }
    }
    proof {
        let ps = parts@.map_values(|p: PathPart| part_view(p));
        assert(ps + Seq::<(bool, nat, Seq<char>)>::empty() =~= ps);
    }
    Ok(parts)
}

} // verus!
