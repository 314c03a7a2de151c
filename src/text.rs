use vstd::prelude::*;

verus! {

/// `p` is a prefix of `s`.
pub open spec fn is_prefix(p: Seq<char>, s: Seq<char>) -> bool {
    p.len() <= s.len() && s.take(p.len() as int) == p
}

/// `p` is a suffix of `s`.
pub open spec fn is_suffix(p: Seq<char>, s: Seq<char>) -> bool {
    p.len() <= s.len() && s.skip(s.len() - p.len()) == p
}

/// `m` occurs in `s` starting at position `i`.
pub open spec fn occurs_at(m: Seq<char>, s: Seq<char>, i: int) -> bool {
    0 <= i && i + m.len() <= s.len() && s.subrange(i, i + m.len()) == m
}

/// The characters of a string, in order.
pub fn chars_of(s: &str) -> (r: Vec<char>)
    ensures
        r@ == s@,
{
    let mut r: Vec<char> = Vec::new();
    for c in it: s.chars()
        invariant
            r@ == it.seq().take(it.index() as int),
    {
        r.push(c);
    }
    r
}


/// A Unicode `White_Space` character, as `char::is_whitespace` defines it.
pub open spec fn is_white(c: char) -> bool {
    ||| '\t' <= c <= '\r'
    ||| c == ' '
    ||| c == '\u{85}'
    ||| c == '\u{a0}'
    ||| c == '\u{1680}'
    ||| '\u{2000}' <= c <= '\u{200a}'
    ||| c == '\u{2028}'
    ||| c == '\u{2029}'
    ||| c == '\u{202f}'
    ||| c == '\u{205f}'
    ||| c == '\u{3000}'
}

/// `s` without its leading white space.
pub open spec fn trim_start_of(s: Seq<char>) -> Seq<char>
    decreases s.len(),
{
    if s.len() > 0 && is_white(s[0]) {
        trim_start_of(s.drop_first())
    } else {
        s
    }
}

/// `s` without its trailing white space.
pub open spec fn trim_end_of(s: Seq<char>) -> Seq<char>
    decreases s.len(),
{
    if s.len() > 0 && is_white(s.last()) {
        trim_end_of(s.drop_last())
    } else {
        s
    }
}

/// `s` without leading and trailing white space.
pub open spec fn trimmed(s: Seq<char>) -> Seq<char> {
    trim_end_of(trim_start_of(s))
}

/// What `str::to_lowercase` makes of a text.
pub uninterp spec fn lower_of(s: Seq<char>) -> Seq<char>;

/// The form in which texts are compared: trimmed, then lower-cased.
pub open spec fn normalized(s: Seq<char>) -> Seq<char> {
    lower_of(trimmed(s))
}

/// Relies on `str::to_lowercase`: the lower-case mapping of each character,
/// which depends on the text alone.
#[verifier::external_body]
pub(crate) fn lowercase(s: &str) -> (r: String)
    ensures
        r@ == lower_of(s@),
{
    s.to_lowercase()
}

/// The decimal digit for `d < 10`.
pub open spec fn digit(d: nat) -> char {
    if d == 0 { '0' } else if d == 1 { '1' } else if d == 2 { '2' } else if d == 3 { '3' }
    else if d == 4 { '4' } else if d == 5 { '5' } else if d == 6 { '6' } else if d == 7 { '7' }
    else if d == 8 { '8' } else { '9' }
}

/// The decimal notation of `n`, without leading zeros.
pub open spec fn decimal(n: nat) -> Seq<char>
    decreases n,
{
    if n < 10 {
        seq![digit(n)]
    } else {
        decimal(n / 10).push(digit(n % 10))
    }
}

/// The decimal digit `d < 10` as a text.
fn digit_text(d: usize) -> (r: &'static str)
    requires
        d < 10,
    ensures
        r@ == seq![digit(d as nat)],
{
    let digits = "0123456789";
    proof {
        reveal_strlit("0123456789");
    }
    let r = digits.substring_char(d, d + 1);
    assert(r@ =~= seq![digit(d as nat)]);
    r
}

/// The decimal notation of `n`.
pub fn decimal_text(n: usize) -> (r: String)
    ensures
        r@ == decimal(n as nat),
    decreases n,
{
    if n < 10 {
        String::from_str(digit_text(n))
    } else {
        let mut r = decimal_text(n / 10);
        r.append(digit_text(n % 10));
        assert(r@ =~= decimal((n / 10) as nat).push(digit((n % 10) as nat)));
        r
    }
}

/// Whether `c` is a Unicode `White_Space` character.
pub fn is_white_char(c: char) -> (r: bool)
    ensures
        r == is_white(c),
{
    ('\t' <= c && c <= '\r') || c == ' ' || c == '\u{85}' || c == '\u{a0}' || c == '\u{1680}'
        || ('\u{2000}' <= c && c <= '\u{200a}') || c == '\u{2028}' || c == '\u{2029}' || c == '\u{202f}'
        || c == '\u{205f}' || c == '\u{3000}'
}

/// Without leading white space, `s` is `s` from position `lo` on.
proof fn lemma_trim_start(s: Seq<char>, lo: int)
    requires
        0 <= lo <= s.len(),
        forall|i: int| 0 <= i < lo ==> is_white(#[trigger] s[i]),
        lo == s.len() || !is_white(s[lo]),
    ensures
        trim_start_of(s) == s.skip(lo),
    decreases lo,
{
    if lo == 0 {
        assert(s.skip(0) =~= s);
    } else {
        let t = s.drop_first();
        assert forall|i: int| 0 <= i < lo - 1 implies is_white(#[trigger] t[i]) by {
            assert(t[i] == s[i + 1]);
        }
        lemma_trim_start(t, lo - 1);
        assert(t.skip(lo - 1) =~= s.skip(lo));
    }
}

/// Without trailing white space, `s` is its first `hi` characters.
proof fn lemma_trim_end(s: Seq<char>, hi: int)
    requires
        0 <= hi <= s.len(),
        forall|i: int| hi <= i < s.len() ==> is_white(#[trigger] s[i]),
        hi == 0 || !is_white(s[hi - 1]),
    ensures
        trim_end_of(s) == s.take(hi),
    decreases s.len() - hi,
{
    if hi == s.len() {
        assert(s.take(hi) =~= s);
    } else {
        let t = s.drop_last();
        assert forall|i: int| hi <= i < t.len() implies is_white(#[trigger] t[i]) by {
            assert(t[i] == s[i]);
        }
        lemma_trim_end(t, hi);
        assert(t.take(hi) =~= s.take(hi));
    }
}

/// The text without leading and trailing white space.
pub fn trim(s: &str) -> (r: &str)
    ensures
        r@ == trimmed(s@),
{
    let cs = chars_of(s);
    let n = cs.len();
    let mut lo: usize = 0;
    while lo < n && is_white_char(cs[lo])
        invariant
            lo <= n == cs@.len(),
            cs@ == s@,
            forall|i: int| 0 <= i < lo ==> is_white(#[trigger] cs@[i]),
        decreases n - lo,
    {
        lo = lo + 1;
    }
    let mut hi: usize = n;
    while hi > lo && is_white_char(cs[hi - 1])
        invariant
            lo <= hi <= n == cs@.len(),
            cs@ == s@,
            forall|i: int| hi <= i < n ==> is_white(#[trigger] cs@[i]),
        decreases hi - lo,
    {
        hi = hi - 1;
    }
    proof {
        lemma_trim_start(s@, lo as int);
        let t = s@.skip(lo as int);
        assert forall|i: int| hi - lo <= i < t.len() implies is_white(#[trigger] t[i]) by {
            assert(t[i] == s@[lo + i]);
        }
        if hi > lo {
            assert(t[hi - lo - 1] == s@[hi - 1]);
        }
        lemma_trim_end(t, hi - lo);
        assert(t.take(hi - lo) =~= s@.subrange(lo as int, hi as int));
    }
    s.substring_char(lo, hi)
}

/// The characters other than `c`.
pub open spec fn other_than(c: char) -> spec_fn(char) -> bool {
    |x: char| x != c
}

/// `s` without any occurrence of `c`.
pub open spec fn without(s: Seq<char>, c: char) -> Seq<char> {
    s.filter(other_than(c))
}

/// The text without any occurrence of `c`.
pub fn remove_char(s: &str, c: char) -> (r: String)
    ensures
        r@ == without(s@, c),
{
    let ghost keep = other_than(c);
    let cs = chars_of(s);
    let mut r = String::new();
    let mut i: usize = 0;
    while i < cs.len()
        invariant
            i <= cs@.len(),
            cs@ == s@,
            keep == other_than(c),
            r@ == s@.take(i as int).filter(keep),
        decreases cs.len() - i,
    {
        proof {
            assert(s@.take(i + 1) =~= s@.take(i as int).push(s@[i as int]));
            s@.take(i as int).lemma_filter_push(s@[i as int], keep);
        }
        if cs[i] != c {
            r.append(s.substring_char(i, i + 1));
            assert(s@.subrange(i as int, i + 1) =~= seq![s@[i as int]]);
        }
        i = i + 1;
    }
    assert(s@.take(i as int) =~= s@);
    r
}

/// The parts, in order, with `sep` between each two neighbours.
pub open spec fn joined(parts: Seq<Seq<char>>, sep: Seq<char>) -> Seq<char>
    decreases parts.len(),
{
    if parts.len() == 0 {
        Seq::empty()
    } else if parts.len() == 1 {
        parts[0]
    } else {
        joined(parts.drop_last(), sep) + sep + parts.last()
    }
}

/// Join texts with a separator.
pub fn join(parts: &Vec<String>, sep: &str) -> (r: String)
    ensures
        r@ == joined(parts.deep_view(), sep@),
{
    let ghost dv = parts.deep_view();
    if parts.len() == 0 {
        return String::new();
    }
    let mut r = parts[0].clone();
    let mut i: usize = 1;
    assert(dv.take(1).drop_last() =~= dv.take(0));
    while i < parts.len()
        invariant
            1 <= i <= parts.len(),
            dv == parts.deep_view(),
            r@ == joined(dv.take(i as int), sep@),
        decreases parts.len() - i,
    {
        r.append(sep);
        r.append(parts[i].as_str());
        assert(dv.take(i + 1).drop_last() =~= dv.take(i as int));
        i = i + 1;
    }
    assert(dv.take(i as int) =~= dv);
    r
}

/// Whether `m` occurs in `s` at position `i`.
pub fn occurs_at_exec(s: &Vec<char>, m: &Vec<char>, i: usize) -> (r: bool)
    requires
        i <= s.len(),
    ensures
        r == occurs_at(m@, s@, i as int),
{
    if m.len() > s.len() - i {
        return false;
    }
    let mut k: usize = 0;
    while k < m.len()
        invariant
            k <= m.len(),
            i + m.len() <= s.len(),
            forall|j: int| 0 <= j < k ==> s@[i + j] == m@[j],
        decreases m.len() - k,
    {
        if s[i + k] != m[k] {
            assert(s@.subrange(i as int, i + m.len())[k as int] != m@[k as int]);
            return false;
        }
        k = k + 1;
    }
    assert(s@.subrange(i as int, i + m.len()) =~= m@);
    true
}

/// Whether `p` is a prefix of `s`.
pub fn starts_with(s: &str, p: &str) -> (r: bool)
    ensures
        r == is_prefix(p@, s@),
{
    let sc = chars_of(s);
    let pc = chars_of(p);
    let r = occurs_at_exec(&sc, &pc, 0);
    assert(sc@.subrange(0, pc@.len() as int) =~= sc@.take(pc@.len() as int));
    r
}

/// Whether `p` is a suffix of `s`.
pub fn ends_with(s: &str, p: &str) -> (r: bool)
    ensures
        r == is_suffix(p@, s@),
{
    let sc = chars_of(s);
    let pc = chars_of(p);
    if pc.len() > sc.len() {
        return false;
    }
    let r = occurs_at_exec(&sc, &pc, sc.len() - pc.len());
    assert(sc@.subrange(sc@.len() - pc@.len(), sc@.len() as int) =~= sc@.skip(sc@.len() - pc@.len()));
    r
}


/// One of `markers` occurs in `s` at position `i`.
pub open spec fn marker_at(s: Seq<char>, markers: Seq<Seq<char>>, i: int) -> bool {
    exists|k: int| 0 <= k < markers.len() && occurs_at(#[trigger] markers[k], s, i)
}

/// The position where the first occurrence of any of `markers` in `s` begins.
pub open spec fn first_marker_spec(s: Seq<char>, markers: Seq<Seq<char>>, r: Option<usize>) -> bool {
    match r {
        Some(p) => {
            &&& marker_at(s, markers, p as int)
            &&& forall|q: int| 0 <= q < p ==> !marker_at(s, markers, q)
        },
        None => forall|q: int| !marker_at(s, markers, q),
    }
}

/// `s` ends with one of `markers`.
pub open spec fn ends_with_any(s: Seq<char>, markers: Seq<Seq<char>>) -> bool {
    exists|k: int| 0 <= k < markers.len() && is_suffix(#[trigger] markers[k], s)
}

/// The characters of each text.
fn chars_of_each(v: &Vec<String>) -> (r: Vec<Vec<char>>)
    ensures
        r.len() == v.len(),
        forall|k: int| 0 <= k < v.len() ==> (#[trigger] r[k])@ == v[k]@,
{
    let mut r: Vec<Vec<char>> = Vec::new();
    let mut k: usize = 0;
    while k < v.len()
        invariant
            k <= v.len(),
            r.len() == k,
            forall|j: int| 0 <= j < k ==> (#[trigger] r[j])@ == v[j]@,
        decreases v.len() - k,
    {
        r.push(chars_of(v[k].as_str()));
        k = k + 1;
    }
    r
}

/// Where the first occurrence of any of `markers` in `s` begins, if any does.
pub fn first_marker(s: &str, markers: &Vec<String>) -> (r: Option<usize>)
    ensures
        first_marker_spec(s@, markers.deep_view(), r),
        r matches Some(p) ==> p <= s@.len(),
{
    let ghost ms = markers.deep_view();
    let sc = chars_of(s);
    let mc = chars_of_each(markers);
    let mut i: usize = 0;
    while i <= sc.len()
        invariant
            sc@ == s@,
            ms == markers.deep_view(),
            mc.len() == markers.len(),
            forall|k: int| 0 <= k < markers.len() ==> (#[trigger] mc[k])@ == markers[k]@,
            forall|q: int| 0 <= q < i ==> !marker_at(s@, ms, q),
        decreases sc.len() + 1 - i,
    {
        let mut k: usize = 0;
        while k < mc.len()
            invariant
                i <= sc.len(),
                sc@ == s@,
                ms == markers.deep_view(),
                mc.len() == markers.len(),
                forall|k: int| 0 <= k < markers.len() ==> (#[trigger] mc[k])@ == markers[k]@,
                k <= mc.len(),
                forall|q: int| 0 <= q < i ==> !marker_at(s@, ms, q),
                forall|j: int| 0 <= j < k ==> !occurs_at(#[trigger] ms[j], s@, i as int),
            decreases mc.len() - k,
        {
            if occurs_at_exec(&sc, &mc[k], i) {
                assert(ms[k as int] == markers[k as int]@);
                assert(occurs_at(ms[k as int], s@, i as int));
                assert(marker_at(s@, ms, i as int));
                return Some(i);
            }
            k = k + 1;
        }
        if i == sc.len() {
            assert forall|q: int| !marker_at(s@, ms, q) by {
                if q > i && marker_at(s@, ms, q) {
                    let k = choose|k: int| 0 <= k < ms.len() && occurs_at(#[trigger] ms[k], s@, q);
                }
            }
            return None;
        }
        i = i + 1;
    }
    None
}

/// Whether `s` ends with one of `markers`.
pub fn ends_with_any_of(s: &str, markers: &Vec<String>) -> (r: bool)
    ensures
        r == ends_with_any(s@, markers.deep_view()),
{
    let ghost ms = markers.deep_view();
    let mut k: usize = 0;
    while k < markers.len()
        invariant
            k <= markers.len(),
            ms == markers.deep_view(),
            forall|j: int| 0 <= j < k ==> !is_suffix(#[trigger] ms[j], s@),
        decreases markers.len() - k,
    {
        if ends_with(s, markers[k].as_str()) {
            assert(is_suffix(ms[k as int], s@));
            return true;
        }
        k = k + 1;
    }
    false
}

} // verus!
