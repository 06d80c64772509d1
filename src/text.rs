//! Small text helpers: decimal numerals, fixed-width cells, pipeline names.
use vstd::prelude::*;

verus! {

/// The character of decimal digit `d`.
pub open spec fn digit_char(d: nat) -> char {
    if d == 0 { '0' } else if d == 1 { '1' } else if d == 2 { '2' } else if d == 3 { '3' } else if d
        == 4 { '4' } else if d == 5 { '5' } else if d == 6 { '6' } else if d == 7 { '7' } else if d
        == 8 { '8' } else { '9' }
}

/// The decimal numeral of `n`, without leading zeros.
pub open spec fn decimal_text(n: nat) -> Seq<char>
    decreases n,
{
    if n < 10 {
        seq![digit_char(n)]
    } else {
        decimal_text(n / 10) + seq![digit_char(n % 10)]
    }
}

fn digit_str(d: u64) -> (r: &'static str)
    requires
        d < 10,
    ensures
        r@ == seq![digit_char(d as nat)],
{
    proof {
        reveal_strlit("0");
        reveal_strlit("1");
        reveal_strlit("2");
        reveal_strlit("3");
        reveal_strlit("4");
        reveal_strlit("5");
        reveal_strlit("6");
        reveal_strlit("7");
        reveal_strlit("8");
        reveal_strlit("9");
    }
    let r = if d == 0 {
        "0"
    } else if d == 1 {
        "1"
    } else if d == 2 {
        "2"
    } else if d == 3 {
        "3"
    } else if d == 4 {
        "4"
    } else if d == 5 {
        "5"
    } else if d == 6 {
        "6"
    } else if d == 7 {
        "7"
    } else if d == 8 {
        "8"
    } else {
        "9"
    };
    assert(r@ =~= seq![digit_char(d as nat)]);
    r
}

/// The decimal numeral of `n`.
pub fn u64_text(n: u64) -> (r: String)
    ensures
        r@ == decimal_text(n as nat),
    decreases n,
{
    if n < 10 {
        String::from_str(digit_str(n))
    } else {
        let mut s = u64_text(n / 10);
        s.append(digit_str(n % 10));
        s
    }
}

/// `s` fitted to a cell of `max_len` characters: padded with spaces when
/// shorter, cut to `max_len - 3` characters and `...` when longer.
pub open spec fn truncated(s: Seq<char>, max_len: nat) -> Seq<char> {
    if s.len() <= max_len {
        s + Seq::new((max_len - s.len()) as nat, |i: int| ' ')
    } else {
        s.subrange(0, if max_len >= 3 { max_len - 3 } else { 0 }) + "..."@
    }
}

/// Fits `s` to a cell of `max_len` characters; see `truncated`.
pub fn truncate_string(s: &str, max_len: usize) -> (r: String)
    ensures
        r@ == truncated(s@, max_len as nat),
{
    proof {
        reveal_strlit("...");
        reveal_strlit(" ");
    }
    let n = s.unicode_len();
    if n <= max_len {
        let mut out = String::from_str(s);
        let mut k: usize = n;
        while k < max_len
            invariant
                n <= k <= max_len,
                n == s@.len(),
                out@ == s@ + Seq::new((k - n) as nat, |i: int| ' '),
            decreases max_len - k,
        {
            proof {
                reveal_strlit(" ");
                assert(" "@ =~= seq![' ']);
            }
            out.append(" ");
            k = k + 1;
            assert(out@ =~= s@ + Seq::new((k - n) as nat, |i: int| ' '));
        }
        out
    } else {
        let cut = if max_len >= 3 { max_len - 3 } else { 0 };
        let mut out = String::from_str(s.substring_char(0, cut));
        out.append("...");
        out
    }
}

/// `c` may stand in a pipeline name: a lower-case ASCII letter, a digit or `_`.
pub open spec fn is_name_char(c: char) -> bool {
    ('a' <= c && c <= 'z') || ('0' <= c && c <= '9') || c == '_'
}

/// A valid pipeline name is non-empty snake case: lower-case letters, digits
/// and underscores, neither starting nor ending with `_`, and no `__`.
pub open spec fn valid_pipeline_name(s: Seq<char>) -> bool {
    &&& s.len() > 0
    &&& forall|i: int| 0 <= i < s.len() ==> is_name_char(#[trigger] s[i])
    &&& s[0] != '_'
    &&& s[s.len() - 1] != '_'
    &&& forall|i: int| 0 <= i < s.len() - 1 ==> !(#[trigger] s[i] == '_' && s[i + 1] == '_')
}

/// Whether `name` is a valid pipeline name; see `valid_pipeline_name`.
pub fn is_valid_pipeline_name(name: &str) -> (r: bool)
    ensures
        r == valid_pipeline_name(name@),
{
    let n = name.unicode_len();
    if n == 0 {
        return false;
    }
    let mut i: usize = 0;
    while i < n
        invariant
            i <= n,
            n == name@.len(),
            n > 0,
            forall|k: int| 0 <= k < i ==> is_name_char(#[trigger] name@[k]),
            forall|k: int| 0 <= k < i && k < n - 1 ==> !(#[trigger] name@[k] == '_' && name@[k + 1] == '_'),
        decreases n - i,
    {
        let c = name.get_char(i);
        if !(('a' <= c && c <= 'z') || ('0' <= c && c <= '9') || c == '_') {
            return false;
        }
        if i + 1 < n && c == '_' && name.get_char(i + 1) == '_' {
            return false;
        }
        i = i + 1;
    }
    name.get_char(0) != '_' && name.get_char(n - 1) != '_'
}

/// The display form of a snake-case name: each `_` becomes a space and each
/// word starts with an upper-case ASCII letter.
pub open spec fn display_name(s: Seq<char>) -> Seq<char> {
    Seq::new(s.len(), |i: int| if s[i] == '_' {
        ' '
    } else if (i == 0 || s[i - 1] == '_') && 'a' <= s[i] && s[i] <= 'z' {
        ((s[i] as u8) - 32) as char
    } else {
        s[i]
    })
}

/// Turns a snake-case name into its display form; see `display_name`.
pub fn format_display_name(name: &str) -> (r: String)
    ensures
        r@ == display_name(name@),
{
    proof {
        reveal_strlit(" ");
    }
    let n = name.unicode_len();
    let mut out = String::new();
    let mut i: usize = 0;
    while i < n
        invariant
            i <= n,
            n == name@.len(),
            out@ == display_name(name@).subrange(0, i as int),
        decreases n - i,
    {
        let c = name.get_char(i);
        let word_start = i == 0 || name.get_char(i - 1) == '_';
        let ghost before = out@;
        proof {
            reveal_strlit(" ");
            assert(" "@ =~= seq![' ']);
        }
        if c == '_' {
            out.append(" ");
        } else if word_start && 'a' <= c && c <= 'z' {
            let up = ((c as u8) - 32) as char;
            let piece = single_char(up);
            out.append(piece.as_str());
        } else {
            out.append(name.substring_char(i, i + 1));
        }
        proof {
            assert(out@ == before + seq![display_name(name@)[i as int]]);
        }
        i = i + 1;
        assert(out@ =~= display_name(name@).subrange(0, i as int));
    }
    assert(display_name(name@).subrange(0, n as int) =~= display_name(name@));
    out
}

/// Relies on `char::to_string`: the one-character string of `c`.
#[verifier::external_body]
pub(crate) fn single_char(c: char) -> (r: String)
    ensures
        r@ == seq![c],
{
    c.to_string()
}

/// `a` comes before `b` in lexicographic order of characters.
pub open spec fn text_lt(a: Seq<char>, b: Seq<char>) -> bool
    decreases a.len(),
{
    if a.len() == 0 {
        b.len() > 0
    } else if b.len() == 0 {
        false
    } else if a[0] != b[0] {
        a[0] < b[0]
    } else {
        text_lt(a.drop_first(), b.drop_first())
    }
}

/// `text_lt` is a strict order: never both ways, never on equal texts.
pub proof fn lemma_text_lt_asym(a: Seq<char>, b: Seq<char>)
    ensures
        text_lt(a, b) ==> !text_lt(b, a),
        !text_lt(a, a),
    decreases a.len(),
{
    if a.len() > 0 && b.len() > 0 && a[0] == b[0] {
        lemma_text_lt_asym(a.drop_first(), b.drop_first());
    }
    if a.len() > 0 {
        lemma_text_lt_asym(a.drop_first(), a.drop_first());
    }
}

proof fn lemma_text_lt_total(a: Seq<char>, b: Seq<char>)
    ensures
        a != b ==> text_lt(a, b) || text_lt(b, a),
    decreases a.len(),
{
    if a.len() > 0 && b.len() > 0 && a[0] == b[0] {
        lemma_text_lt_total(a.drop_first(), b.drop_first());
        if a != b {
            assert(a.drop_first() != b.drop_first()) by {
                if a.drop_first() == b.drop_first() {
                    assert(a =~= seq![a[0]] + a.drop_first());
                    assert(b =~= seq![b[0]] + b.drop_first());
                }
            }
        }
    } else if a.len() == 0 && b.len() == 0 {
        assert(a =~= b);
    }
}

proof fn lemma_text_lt_trans(a: Seq<char>, b: Seq<char>, c: Seq<char>)
    requires
        text_lt(a, b),
        text_lt(b, c),
    ensures
        text_lt(a, c),
    decreases a.len(),
{
    if a.len() > 0 && b.len() > 0 && c.len() > 0 && a[0] == b[0] && b[0] == c[0] {
        lemma_text_lt_trans(a.drop_first(), b.drop_first(), c.drop_first());
    }
}

/// Whether `a` comes before `b`; see `text_lt`.
pub fn text_less(a: &String, b: &String) -> (r: bool)
    ensures
        r == text_lt(a@, b@),
{
    let n = a.unicode_len();
    let m = b.unicode_len();
    let mut k: usize = 0;
    proof {
        assert(a@.subrange(0, n as int) =~= a@);
        assert(b@.subrange(0, m as int) =~= b@);
    }
    while k < n && k < m && a.get_char(k) == b.get_char(k)
        invariant
            k <= n,
            k <= m,
            n == a@.len(),
            m == b@.len(),
            text_lt(a@, b@) == text_lt(a@.subrange(k as int, n as int), b@.subrange(k as int, m as int)),
        decreases n - k,
    {
        proof {
            assert(a@.subrange(k as int, n as int).drop_first() =~= a@.subrange(k + 1, n as int));
            assert(b@.subrange(k as int, m as int).drop_first() =~= b@.subrange(k + 1, m as int));
        }
        k = k + 1;
    }
    if k == n {
        k < m
    } else if k == m {
        false
    } else {
        a.get_char(k) < b.get_char(k)
    }
}

/// The texts of `v` are in strictly ascending order.
pub open spec fn ascending(v: Seq<String>) -> bool {
    forall|i: int, j: int| 0 <= i < j < v.len() ==> text_lt(#[trigger] v[i]@, #[trigger] v[j]@)
}

/// `t` is among the texts of `v`.
pub open spec fn holds_text(v: Seq<String>, t: Seq<char>) -> bool {
    exists|i: int| 0 <= i < v.len() && #[trigger] v[i]@ == t
}

/// The texts of `v`, which are distinct, in ascending order.
pub fn sort_texts(v: Vec<String>) -> (r: Vec<String>)
    requires
        forall|i: int, j: int| 0 <= i < j < v@.len() ==> #[trigger] v@[i]@ != #[trigger] v@[j]@,
    ensures
        r@.len() == v@.len(),
        ascending(r@),
        forall|t: Seq<char>| holds_text(r@, t) <==> holds_text(v@, t),
{
    let mut out: Vec<String> = Vec::new();
    let mut i: usize = 0;
    while i < v.len()
        invariant
            i <= v@.len(),
            out@.len() == i,
            forall|a: int, b: int| 0 <= a < b < v@.len() ==> #[trigger] v@[a]@ != #[trigger] v@[b]@,
            ascending(out@),
            forall|t: Seq<char>| #[trigger] holds_text(out@, t) <==> exists|j: int| 0 <= j < i && #[trigger] v@[j]@ == t,
        decreases v@.len() - i,
    {
        let x = v[i].clone();
        let mut p: usize = 0;
        while p < out.len() && text_less(&out[p], &x)
            invariant
                p <= out@.len(),
                forall|q: int| 0 <= q < p ==> text_lt(#[trigger] out@[q]@, x@),
            decreases out@.len() - p,
        {
            p = p + 1;
        }
        let ghost before = out@;
        proof {
            // x differs from every text so far, so those from p on come after it.
            assert forall|q: int| p <= q < before.len() implies text_lt(x@, #[trigger] before[q]@) by {
                assert(holds_text(before, before[q]@));
                let j = choose|j: int| 0 <= j < i && #[trigger] v@[j]@ == before[q]@;
                assert(v@[j]@ != v@[i as int]@);
                if q == p {
                    assert(!text_lt(before[p as int]@, x@));
                    lemma_text_lt_total(before[q]@, x@);
                } else {
                    assert(holds_text(before, before[p as int]@));
                    let jp = choose|j: int| 0 <= j < i && #[trigger] v@[j]@ == before[p as int]@;
                    assert(v@[jp]@ != v@[i as int]@);
                    assert(!text_lt(before[p as int]@, x@));
                    lemma_text_lt_total(before[p as int]@, x@);
                    assert(text_lt(before[p as int]@, before[q]@));
                    lemma_text_lt_trans(x@, before[p as int]@, before[q]@);
                }
            }
        }
        out.insert(p, x);
        proof {
            assert forall|a: int, b: int| 0 <= a < b < out@.len() implies text_lt(#[trigger] out@[a]@, #[trigger] out@[b]@) by {
                if b < p {
                    assert(out@[a] == before[a] && out@[b] == before[b]);
                } else if b == p {
                    assert(out@[a] == before[a]);
                } else if a < p {
                    assert(out@[a] == before[a] && out@[b] == before[b - 1]);
                    if a < p {
                        lemma_text_lt_trans(before[a]@, x@, before[b - 1]@);
                    }
                } else if a == p {
                    assert(out@[b] == before[b - 1]);
                } else {
                    assert(out@[a] == before[a - 1] && out@[b] == before[b - 1]);
                }
            }
            assert forall|t: Seq<char>| #[trigger] holds_text(out@, t) <==> exists|j: int| 0 <= j < i + 1 && #[trigger] v@[j]@ == t by {
                if holds_text(out@, t) {
                    let k = choose|k: int| 0 <= k < out@.len() && #[trigger] out@[k]@ == t;
                    if k < p {
                        assert(out@[k] == before[k]);
                        assert(holds_text(before, t));
                    } else if k == p {
                        assert(v@[i as int]@ == t);
                    } else {
                        assert(out@[k] == before[k - 1]);
                        assert(holds_text(before, t));
                    }
                }
                if exists|j: int| 0 <= j < i + 1 && #[trigger] v@[j]@ == t {
                    let j = choose|j: int| 0 <= j < i + 1 && #[trigger] v@[j]@ == t;
                    if j == i {
                        assert(out@[p as int]@ == t);
                    } else {
                        assert(holds_text(before, t));
                        let k = choose|k: int| 0 <= k < before.len() && #[trigger] before[k]@ == t;
                        if k < p {
                            assert(out@[k] == before[k]);
                        } else {
                            assert(out@[k + 1] == before[k]);
                        }
                    }
                }
            }
        }
        i = i + 1;
    }
    proof {
        assert forall|t: Seq<char>| holds_text(out@, t) <==> holds_text(v@, t) by {
            assert(holds_text(out@, t) <==> exists|j: int| 0 <= j < v@.len() && #[trigger] v@[j]@ == t);
        }
    }
    out
}

} // verus!
