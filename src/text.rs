//! Character-level text primitives with exact specifications.

use vstd::prelude::*;
use vstd::std_specs::iter::IteratorSpec;

verus! {

/// Copies the characters of `s` into a vector.
pub fn chars_of(s: &str) -> (r: Vec<char>)
    ensures
        r@ == s@,
{
    let mut it = s.chars();
    let mut r: Vec<char> = Vec::new();
    loop
        invariant
            r@ + it.remaining() == s@,
            it.obeys_prophetic_iter_laws(),
            it.decrease() is Some,
        decreases it.decrease()->0,
    {
        match it.next() {
            Some(c) => {
                r.push(c);
                assert(r@ + it.remaining() == s@);
            },
            None => {
                return r;
            },
        }
    }
}


/// Relies on `FromIterator<char>` for `String`: the string holds exactly the
/// collected characters, in order.
#[verifier::external_body]
pub fn string_of(v: &Vec<char>) -> (r: String)
    ensures
        r@ == v@,
{
    v.iter().collect::<String>()
}

/// Maps an optional machine index to a mathematical one.
pub open spec fn opt_int(o: Option<usize>) -> Option<int> {
    match o {
        Some(i) => Some(i as int),
        None => None,
    }
}

/// The characters of an optional string.
pub open spec fn opt_view(o: Option<&str>) -> Option<Seq<char>> {
    match o {
        Some(s) => Some(s@),
        None => None,
    }
}

/// Unicode `White_Space`, the set that `char::is_whitespace` and `\s` use.
pub open spec fn is_ws(c: char) -> bool {
    let u = c as u32;
    u == 0x20 || (0x09 <= u && u <= 0x0D) || u == 0x85 || u == 0xA0 || u == 0x1680 || (0x2000
        <= u && u <= 0x200A) || u == 0x2028 || u == 0x2029 || u == 0x202F || u == 0x205F || u
        == 0x3000
}

pub fn is_whitespace(c: char) -> (r: bool)
    ensures
        r == is_ws(c),
{
    let u = c as u32;
    u == 0x20 || (0x09 <= u && u <= 0x0D) || u == 0x85 || u == 0xA0 || u == 0x1680 || (0x2000
        <= u && u <= 0x200A) || u == 0x2028 || u == 0x2029 || u == 0x202F || u == 0x205F || u
        == 0x3000
}

/// First index at or after `i` that holds `c`.
pub open spec fn find_from(s: Seq<char>, c: char, i: int) -> Option<int>
    decreases s.len() - i,
{
    if i < 0 || i >= s.len() {
        None
    } else if s[i] == c {
        Some(i)
    } else {
        find_from(s, c, i + 1)
    }
}

pub open spec fn first_of(s: Seq<char>, c: char) -> Option<int> {
    find_from(s, c, 0)
}

/// Last index below `i` that holds `c`.
pub open spec fn rfind_below(s: Seq<char>, c: char, i: int) -> Option<int>
    decreases i,
{
    if i <= 0 || i > s.len() {
        None
    } else if s[i - 1] == c {
        Some(i - 1)
    } else {
        rfind_below(s, c, i - 1)
    }
}

pub open spec fn last_of(s: Seq<char>, c: char) -> Option<int> {
    rfind_below(s, c, s.len() as int)
}

/// Last index `k` with `k + 2 <= i` where the pair `a b` starts.
pub open spec fn rfind_pair_below(s: Seq<char>, a: char, b: char, i: int) -> Option<int>
    decreases i,
{
    if i < 2 || i > s.len() {
        None
    } else if s[i - 2] == a && s[i - 1] == b {
        Some(i - 2)
    } else {
        rfind_pair_below(s, a, b, i - 1)
    }
}

pub open spec fn last_pair(s: Seq<char>, a: char, b: char) -> Option<int> {
    rfind_pair_below(s, a, b, s.len() as int)
}

pub fn find_char(v: &Vec<char>, c: char) -> (r: Option<usize>)
    ensures
        opt_int(r) == first_of(v@, c),
{
    let mut i: usize = 0;
    while i < v.len()
        invariant
            i <= v.len(),
            first_of(v@, c) == find_from(v@, c, i as int),
        decreases v.len() - i,
    {
        if v[i] == c {
            return Some(i);
        }
        i += 1;
    }
    None
}

pub fn rfind_char(v: &Vec<char>, c: char) -> (r: Option<usize>)
    ensures
        opt_int(r) == last_of(v@, c),
{
    let mut i: usize = v.len();
    while i > 0
        invariant
            i <= v.len(),
            last_of(v@, c) == rfind_below(v@, c, i as int),
        decreases i,
    {
        if v[i - 1] == c {
            return Some(i - 1);
        }
        i -= 1;
    }
    None
}

pub fn rfind_pair(v: &Vec<char>, a: char, b: char) -> (r: Option<usize>)
    ensures
        opt_int(r) == last_pair(v@, a, b),
{
    let mut i: usize = v.len();
    while i >= 2
        invariant
            i <= v.len(),
            last_pair(v@, a, b) == rfind_pair_below(v@, a, b, i as int),
        decreases i,
    {
        if v[i - 2] == a && v[i - 1] == b {
            return Some(i - 2);
        }
        i -= 1;
    }
    None
}

/// The characters of `v` in `lo..hi`.
pub fn slice(v: &Vec<char>, lo: usize, hi: usize) -> (r: Vec<char>)
    requires
        lo <= hi <= v.len(),
    ensures
        r@ == v@.subrange(lo as int, hi as int),
{
    let mut r: Vec<char> = Vec::new();
    let mut i: usize = lo;
    while i < hi
        invariant
            lo <= i <= hi <= v.len(),
            r@ == v@.subrange(lo as int, i as int),
        decreases hi - i,
    {
        r.push(v[i]);
        i += 1;
        assert(r@ == v@.subrange(lo as int, i as int));
    }
    r
}

/// First index at or after `i` that is not whitespace.
pub open spec fn skip_ws(s: Seq<char>, i: int) -> int
    decreases s.len() - i,
{
    if 0 <= i < s.len() && is_ws(s[i]) {
        skip_ws(s, i + 1)
    } else {
        i
    }
}

/// End of `s[lo..j]` once trailing whitespace is dropped.
pub open spec fn back_ws(s: Seq<char>, lo: int, j: int) -> int
    decreases j,
{
    if 0 <= lo < j <= s.len() && is_ws(s[j - 1]) {
        back_ws(s, lo, j - 1)
    } else {
        j
    }
}

/// `s` without leading and trailing whitespace, as `str::trim` gives it.
pub open spec fn trimmed(s: Seq<char>) -> Seq<char> {
    let a = skip_ws(s, 0);
    s.subrange(a, back_ws(s, a, s.len() as int))
}

pub fn trim(v: &Vec<char>) -> (r: Vec<char>)
    ensures
        r@ == trimmed(v@),
{
    let mut a: usize = 0;
    while a < v.len() && is_whitespace(v[a])
        invariant
            a <= v.len(),
            skip_ws(v@, 0) == skip_ws(v@, a as int),
        decreases v.len() - a,
    {
        a += 1;
    }
    let mut b: usize = v.len();
    while b > a && is_whitespace(v[b - 1])
        invariant
            a <= b <= v.len(),
            a == skip_ws(v@, 0),
            back_ws(v@, a as int, v.len() as int) == back_ws(v@, a as int, b as int),
        decreases b,
    {
        b -= 1;
    }
    slice(v, a, b)
}

/// `s` cut around its first `c`, as `str::split_once` does.
pub open spec fn split_first(s: Seq<char>, c: char) -> Option<(Seq<char>, Seq<char>)> {
    match first_of(s, c) {
        Some(i) => Some((s.subrange(0, i), s.subrange(i + 1, s.len() as int))),
        None => None,
    }
}

/// `s` cut around its last `c`, as `str::rsplit_once` does.
pub open spec fn split_last(s: Seq<char>, c: char) -> Option<(Seq<char>, Seq<char>)> {
    match last_of(s, c) {
        Some(i) => Some((s.subrange(0, i), s.subrange(i + 1, s.len() as int))),
        None => None,
    }
}

pub open spec fn pair_view(o: Option<(Vec<char>, Vec<char>)>) -> Option<(Seq<char>, Seq<char>)> {
    match o {
        Some((a, b)) => Some((a@, b@)),
        None => None,
    }
}

pub proof fn lemma_find_from_range(s: Seq<char>, c: char, i: int)
    requires
        0 <= i,
    ensures
        find_from(s, c, i) is Some ==> i <= find_from(s, c, i)->0 < s.len() && s[find_from(
            s,
            c,
            i,
        )->0] == c,
    decreases s.len() - i,
{
    if i < s.len() && s[i] != c {
        lemma_find_from_range(s, c, i + 1);
    }
}

pub proof fn lemma_rfind_below_range(s: Seq<char>, c: char, i: int)
    ensures
        rfind_below(s, c, i) is Some ==> 0 <= rfind_below(s, c, i)->0 < i && rfind_below(s, c, i)->0
            < s.len() && s[rfind_below(s, c, i)->0] == c,
    decreases i,
{
    if 0 < i <= s.len() && s[i - 1] != c {
        lemma_rfind_below_range(s, c, i - 1);
    }
}

pub fn split_once(v: &Vec<char>, c: char) -> (r: Option<(Vec<char>, Vec<char>)>)
    ensures
        pair_view(r) == split_first(v@, c),
{
    proof {
        lemma_find_from_range(v@, c, 0);
    }
    let n = v.len();
    match find_char(v, c) {
        Some(i) => {
            assert(first_of(v@, c) == Some(i as int));
            Some((slice(v, 0, i), slice(v, i + 1, n)))
        },
        None => None,
    }
}

pub fn rsplit_once(v: &Vec<char>, c: char) -> (r: Option<(Vec<char>, Vec<char>)>)
    ensures
        pair_view(r) == split_last(v@, c),
{
    proof {
        lemma_rfind_below_range(v@, c, v@.len() as int);
    }
    let n = v.len();
    match rfind_char(v, c) {
        Some(i) => {
            assert(last_of(v@, c) == Some(i as int));
            Some((slice(v, 0, i), slice(v, i + 1, n)))
        },
        None => None,
    }
}


pub open spec fn is_digit(c: char) -> bool {
    '0' <= c && c <= '9'
}

pub open spec fn digit_val(c: char) -> nat {
    (c as u32 - '0' as u32) as nat
}

/// The number that a run of decimal digits spells.
pub open spec fn digits_val(s: Seq<char>) -> nat
    decreases s.len(),
{
    if s.len() == 0 {
        0
    } else {
        digits_val(s.drop_last()) * 10 + digit_val(s.last())
    }
}

pub open spec fn all_digits(s: Seq<char>) -> bool {
    forall|i: int| 0 <= i < s.len() ==> is_digit(#[trigger] s[i])
}

/// `s` without one leading `+`.
pub open spec fn unsigned_part(s: Seq<char>) -> Seq<char> {
    if s.len() > 0 && s[0] == '+' {
        s.drop_first()
    } else {
        s
    }
}

/// What `usize::from_str` reads from `s`: an optional `+` and at least one
/// digit, within the range of `usize`.
pub open spec fn usize_of(s: Seq<char>) -> Option<usize> {
    let d = unsigned_part(s);
    if d.len() > 0 && all_digits(d) && digits_val(d) <= usize::MAX {
        Some(digits_val(d) as usize)
    } else {
        None
    }
}

proof fn lemma_digits_prefix(s: Seq<char>, k: int)
    requires
        0 <= k <= s.len(),
    ensures
        digits_val(s.subrange(0, k)) <= digits_val(s),
    decreases s.len(),
{
    if k < s.len() {
        lemma_digits_prefix(s.drop_last(), k);
        assert(s.drop_last().subrange(0, k) =~= s.subrange(0, k));
    } else {
        assert(s.subrange(0, k) =~= s);
    }
}

/// The value of the digits of `v` from `start` on, when there is at least one
/// digit, nothing else, and the value fits.
pub fn digits_from(v: &Vec<char>, start: usize) -> (r: Option<usize>)
    requires
        start <= v.len(),
    ensures
        ({
            let d = v@.subrange(start as int, v@.len() as int);
            r == if d.len() > 0 && all_digits(d) && digits_val(d) <= usize::MAX {
                Some(digits_val(d) as usize)
            } else {
                None::<usize>
            }
        }),
{
    let n = v.len();
    let ghost d = v@.subrange(start as int, n as int);
    if start == n {
        return None;
    }
    let mut val: u128 = 0;
    let mut i: usize = start;
    while i < n
        invariant
            start <= i <= n == v@.len(),
            d == v@.subrange(start as int, n as int),
            val == digits_val(v@.subrange(start as int, i as int)),
            val <= usize::MAX,
            forall|j: int| start <= j < i ==> is_digit(#[trigger] v@[j]),
        decreases n - i,
    {
        let c = v[i];
        if !('0' <= c && c <= '9') {
            assert(!is_digit(d[i - start]));
            assert(!all_digits(d));
            return None;
        }
        let ghost pre = v@.subrange(start as int, i as int);
        let ghost next = v@.subrange(start as int, i + 1);
        assert(next.drop_last() =~= pre);
        let nv: u128 = val * 10 + ((c as u32 - '0' as u32) as u128);
        assert(nv == digits_val(next));
        if nv > usize::MAX as u128 {
            proof {
                lemma_digits_prefix(d, i + 1 - start);
                assert(d.subrange(0, i + 1 - start) =~= next);
                assert(digits_val(d) > usize::MAX);
            }
            return None;
        }
        val = nv;
        i += 1;
    }
    assert(v@.subrange(start as int, n as int) =~= d);
    assert(all_digits(d));
    Some(val as usize)
}

pub fn parse_usize(v: &Vec<char>) -> (r: Option<usize>)
    ensures
        r == usize_of(v@),
{
    let n = v.len();
    let start: usize = if n > 0 && v[0] == '+' {
        1
    } else {
        0
    };
    assert(unsigned_part(v@) =~= v@.subrange(start as int, n as int));
    digits_from(v, start)
}

/// What `i32::from_str` reads from `s`: an optional sign and at least one
/// digit, within the range of `i32`.
pub open spec fn i32_of(s: Seq<char>) -> Option<i32> {
    if s.len() > 0 && s[0] == '-' {
        let d = s.drop_first();
        if d.len() > 0 && all_digits(d) && digits_val(d) <= 0x8000_0000 {
            Some((0 - digits_val(d)) as i32)
        } else {
            None
        }
    } else {
        let d = unsigned_part(s);
        if d.len() > 0 && all_digits(d) && digits_val(d) <= 0x7fff_ffff {
            Some(digits_val(d) as i32)
        } else {
            None
        }
    }
}

pub fn parse_i32(v: &Vec<char>) -> (r: Option<i32>)
    ensures
        r == i32_of(v@),
{
    let n = v.len();
    if n > 0 && v[0] == '-' {
        assert(v@.drop_first() =~= v@.subrange(1, n as int));
        match digits_from(v, 1) {
            Some(x) => if x <= 0x8000_0000 {
                let r: i64 = 0 - (x as i64);
                Some(r as i32)
            } else {
                None
            },
            None => None,
        }
    } else {
        match parse_usize(v) {
            Some(x) => if x <= 0x7fff_ffff {
                Some(x as i32)
            } else {
                None
            },
            None => None,
        }
    }
}

/// The pieces of `s` between its `sep` characters, as `str::split` gives
/// them; there is always one more piece than there are separators.
pub open spec fn split_by(s: Seq<char>, sep: char) -> Seq<Seq<char>>
    decreases s.len(),
{
    if s.len() == 0 {
        seq![Seq::empty()]
    } else {
        let p = split_by(s.drop_last(), sep);
        if s.last() == sep {
            p.push(Seq::empty())
        } else {
            p.update(p.len() - 1, p.last().push(s.last()))
        }
    }
}

pub open spec fn split_by_nl(s: Seq<char>) -> Seq<Seq<char>> {
    split_by(s, '\n')
}

pub open spec fn strip_cr(l: Seq<char>) -> Seq<char> {
    if l.len() > 0 && l.last() == '\r' {
        l.drop_last()
    } else {
        l
    }
}

/// The lines of `s` as `str::lines` yields them: split at `'\n'`, a `'\r'`
/// before a `'\n'` dropped, and no empty line after a final newline.
pub open spec fn lines_of(s: Seq<char>) -> Seq<Seq<char>> {
    let p = split_by_nl(s);
    let ended = p.drop_last().map_values(|l: Seq<char>| strip_cr(l));
    if p.last().len() == 0 {
        ended
    } else {
        ended.push(p.last())
    }
}

pub open spec fn views(v: Seq<Vec<char>>) -> Seq<Seq<char>> {
    v.map_values(|x: Vec<char>| x@)
}

fn strip_cr_vec(v: Vec<char>) -> (r: Vec<char>)
    ensures
        r@ == strip_cr(v@),
{
    let mut v = v;
    let n = v.len();
    if n > 0 && v[n - 1] == '\r' {
        v.pop();
    }
    v
}

pub fn lines(v: &Vec<char>) -> (r: Vec<Vec<char>>)
    ensures
        views(r@) == lines_of(v@),
{
    let n = v.len();
    let mut done: Vec<Vec<char>> = Vec::new();
    let mut cur: Vec<char> = Vec::new();
    let mut i: usize = 0;
    assert(v@.subrange(0, 0) =~= Seq::<char>::empty());
    while i < n
        invariant
            i <= n == v@.len(),
            split_by_nl(v@.subrange(0, i as int)).len() >= 1,
            views(done@) == split_by_nl(v@.subrange(0, i as int)).drop_last().map_values(
                |l: Seq<char>| strip_cr(l),
            ),
            cur@ == split_by_nl(v@.subrange(0, i as int)).last(),
        decreases n - i,
    {
        let ghost old_p = split_by_nl(v@.subrange(0, i as int));
        let ghost old_done = views(done@);
        let c = v[i];
        assert(v@.subrange(0, i + 1).drop_last() =~= v@.subrange(0, i as int));
        let ghost new_p = split_by_nl(v@.subrange(0, i + 1));
        if c == '\n' {
            let line = strip_cr_vec(cur);
            done.push(line);
            cur = Vec::new();
            assert(new_p == old_p.push(Seq::empty()));
            assert(new_p.drop_last() =~= old_p);
            assert(old_p.map_values(|l: Seq<char>| strip_cr(l)) =~= old_p.drop_last().map_values(
                |l: Seq<char>| strip_cr(l),
            ).push(strip_cr(old_p.last())));
            assert(views(done@) =~= old_done.push(strip_cr(old_p.last())));
        } else {
            cur.push(c);
            assert(new_p.drop_last() =~= old_p.drop_last());
        }
        i += 1;
    }
    assert(v@.subrange(0, n as int) =~= v@);
    if cur.len() > 0 {
        done.push(cur);
        assert(views(done@) =~= lines_of(v@));
    }
    done
}

/// The pieces of `v` between its `sep` characters.
pub fn split(v: &Vec<char>, sep: char) -> (r: Vec<Vec<char>>)
    ensures
        views(r@) == split_by(v@, sep),
{
    let n = v.len();
    let mut done: Vec<Vec<char>> = Vec::new();
    let mut cur: Vec<char> = Vec::new();
    let mut i: usize = 0;
    assert(v@.subrange(0, 0) =~= Seq::<char>::empty());
    assert(views(done@).push(cur@) =~= split_by(v@.subrange(0, 0), sep));
    while i < n
        invariant
            i <= n == v@.len(),
            views(done@).push(cur@) == split_by(v@.subrange(0, i as int), sep),
        decreases n - i,
    {
        let ghost old_p = split_by(v@.subrange(0, i as int), sep);
        let c = v[i];
        assert(v@.subrange(0, i + 1).drop_last() =~= v@.subrange(0, i as int));
        if c == sep {
            done.push(cur);
            cur = Vec::new();
            assert(views(done@).push(cur@) =~= old_p.push(Seq::empty()));
        } else {
            let ghost d = views(done@);
            cur.push(c);
            assert(views(done@).push(cur@) =~= old_p.update(old_p.len() - 1, old_p.last().push(c)));
        }
        i += 1;
    }
    assert(v@.subrange(0, n as int) =~= v@);
    done.push(cur);
    done
}

pub proof fn lemma_split_len(s: Seq<char>, sep: char)
    ensures
        1 <= split_by(s, sep).len() <= s.len() + 1,
    decreases s.len(),
{
    if s.len() > 0 {
        lemma_split_len(s.drop_last(), sep);
    }
}

pub open spec fn digit_chars() -> Seq<char> {
    seq!['0', '1', '2', '3', '4', '5', '6', '7', '8', '9']
}

/// The decimal digits of `n`, most significant first.
pub open spec fn nat_text(n: nat) -> Seq<char>
    decreases n,
{
    if n < 10 {
        seq![digit_chars()[n as int]]
    } else {
        nat_text(n / 10).push(digit_chars()[(n % 10) as int])
    }
}

/// `n` written in decimal, with a `-` when negative.
pub open spec fn int_text(n: int) -> Seq<char> {
    if n < 0 {
        seq!['-'] + nat_text((-n) as nat)
    } else {
        nat_text(n as nat)
    }
}

/// `n` in decimal, as `i32`'s `Display` writes it.
pub fn int_chars(n: i32) -> (r: Vec<char>)
    ensures
        r@ == int_text(n as int),
{
    let ds: Vec<char> = vec!['0', '1', '2', '3', '4', '5', '6', '7', '8', '9'];
    assert(ds@ =~= digit_chars());
    let neg = n < 0;
    let mut cur: u64 = if neg {
        (0 - (n as i64)) as u64
    } else {
        n as u64
    };
    let ghost n0: nat = cur as nat;
    let mut acc: Vec<char> = Vec::new();
    while cur >= 10
        invariant
            ds@ == digit_chars(),
            nat_text(n0) == nat_text(cur as nat) + acc@,
        decreases cur,
    {
        let d = (cur % 10) as usize;
        let ghost old_acc = acc@;
        acc.insert(0, ds[d]);
        assert(nat_text(cur as nat) == nat_text((cur / 10) as nat).push(digit_chars()[d as int]));
        assert(acc@ =~= seq![digit_chars()[d as int]] + old_acc);
        assert(nat_text(cur as nat) + old_acc =~= nat_text((cur / 10) as nat) + acc@);
        cur = cur / 10;
    }
    let mut r: Vec<char> = Vec::new();
    if neg {
        r.push('-');
    }
    r.push(ds[cur as usize]);
    let ghost head = r@;
    let mut i: usize = 0;
    while i < acc.len()
        invariant
            i <= acc.len(),
            r@ == head + acc@.subrange(0, i as int),
        decreases acc.len() - i,
    {
        r.push(acc[i]);
        i += 1;
        assert(r@ =~= head + acc@.subrange(0, i as int));
    }
    assert(acc@.subrange(0, acc@.len() as int) =~= acc@);
    if neg {
        assert(r@ =~= seq!['-'] + nat_text(n0));
    } else {
        assert(r@ =~= nat_text(n0));
    }
    r
}

/// Appends the characters of `t` to `r`.
pub fn append(r: &mut Vec<char>, t: &Vec<char>)
    ensures
        final(r)@ == old(r)@ + t@,
{
    let ghost pre = r@;
    let mut i: usize = 0;
    while i < t.len()
        invariant
            i <= t.len(),
            r@ == pre + t@.subrange(0, i as int),
        decreases t.len() - i,
    {
        r.push(t[i]);
        i += 1;
        assert(r@ =~= pre + t@.subrange(0, i as int));
    }
    assert(t@.subrange(0, t@.len() as int) =~= t@);
}

/// `n` occurs in `h` at `i`.
pub open spec fn occurs_at(h: Seq<char>, n: Seq<char>, i: int) -> bool {
    0 <= i && i + n.len() <= h.len() && h.subrange(i, i + n.len()) == n
}

pub open spec fn contains(h: Seq<char>, n: Seq<char>) -> bool {
    exists|i: int| occurs_at(h, n, i)
}

pub fn matches_at(h: &Vec<char>, n: &Vec<char>, i: usize) -> (r: bool)
    ensures
        r == occurs_at(h@, n@, i as int),
{
    let hl = h.len();
    let nl = n.len();
    if i > hl || nl > hl - i {
        return false;
    }
    let mut k: usize = 0;
    while k < nl
        invariant
            k <= nl == n@.len(),
            i + nl <= hl == h@.len(),
            forall|j: int| 0 <= j < k ==> h@[i + j] == n@[j],
        decreases nl - k,
    {
        if h[i + k] != n[k] {
            assert(h@.subrange(i as int, i + nl)[k as int] != n@[k as int]);
            return false;
        }
        k += 1;
    }
    assert(h@.subrange(i as int, i + nl) =~= n@);
    true
}

/// Whether `a` and `b` hold the same characters.
pub fn same(a: &Vec<char>, b: &Vec<char>) -> (r: bool)
    ensures
        r == (a@ == b@),
{
    if a.len() != b.len() {
        return false;
    }
    let r = matches_at(a, b, 0);
    assert(a@.subrange(0, a@.len() as int) =~= a@);
    r
}

/// Whether two strings hold the same characters.
pub fn str_eq(a: &str, b: &str) -> (r: bool)
    ensures
        r == (a@ == b@),
{
    same(&chars_of(a), &chars_of(b))
}

pub fn contains_seq(h: &Vec<char>, n: &Vec<char>) -> (r: bool)
    ensures
        r == contains(h@, n@),
{
    let hl = h.len();
    let mut i: usize = 0;
    while i < hl
        invariant
            hl == h@.len(),
            i <= hl,
            forall|j: int| 0 <= j < i ==> !occurs_at(h@, n@, j),
        decreases hl - i,
    {
        if matches_at(h, n, i) {
            return true;
        }
        i += 1;
    }
    if matches_at(h, n, hl) {
        return true;
    }
    assert forall|j: int| !occurs_at(h@, n@, j) by {
        if 0 <= j && j + n@.len() <= h@.len() {
            assert(j < i || j == hl);
        }
    }
    false
}

pub proof fn lemma_last_of_range(s: Seq<char>, c: char)
    ensures
        last_of(s, c) is Some ==> 0 <= last_of(s, c)->0 < s.len() && s[last_of(s, c)->0] == c,
{
    lemma_rfind_below_range(s, c, s.len() as int);
}

} // verus!
