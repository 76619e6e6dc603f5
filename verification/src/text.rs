//! Text: the order of names, finding, trimming and splitting, and the sorted name sets the
//! checks keep.

use vstd::prelude::*;

verus! {

/// The order of `String`: byte by byte of UTF-8, which is code point by code point.
pub open spec fn str_lt(a: Seq<char>, b: Seq<char>) -> bool
    decreases a.len(),
{
    if a.len() == 0 {
        b.len() > 0
    } else if b.len() == 0 {
        false
    } else if a[0] != b[0] {
        a[0] < b[0]
    } else {
        str_lt(a.drop_first(), b.drop_first())
    }
}

pub proof fn lemma_str_lt_irreflexive(a: Seq<char>)
    ensures
        !str_lt(a, a),
    decreases a.len(),
{
    if a.len() > 0 {
        lemma_str_lt_irreflexive(a.drop_first());
    }
}

pub proof fn lemma_str_lt_transitive(a: Seq<char>, b: Seq<char>, c: Seq<char>)
    requires
        str_lt(a, b),
        str_lt(b, c),
    ensures
        str_lt(a, c),
    decreases a.len(),
{
    if a.len() > 0 && b.len() > 0 && c.len() > 0 && a[0] == b[0] && b[0] == c[0] {
        lemma_str_lt_transitive(a.drop_first(), b.drop_first(), c.drop_first());
    }
}

pub proof fn lemma_str_lt_total(a: Seq<char>, b: Seq<char>)
    requires
        a != b,
    ensures
        str_lt(a, b) || str_lt(b, a),
    decreases a.len(),
{
    if a.len() > 0 && b.len() > 0 && a[0] == b[0] {
        if a.drop_first() == b.drop_first() {
            assert(a =~= seq![a[0]] + a.drop_first());
            assert(b =~= seq![b[0]] + b.drop_first());
        }
        lemma_str_lt_total(a.drop_first(), b.drop_first());
    } else if a.len() > 0 && b.len() > 0 {
    } else if a.len() == 0 && b.len() == 0 {
        assert(a =~= b);
    }
}

/// The characters of a text.
pub fn chars_of(s: &str) -> (v: Vec<char>)
    ensures
        v@ == s@,
{
    let n = s.unicode_len();
    let mut v: Vec<char> = Vec::new();
    let mut i: usize = 0;
    while i < n
        invariant
            n == s@.len(),
            i <= n,
            v@ == s@.take(i as int),
        decreases n - i,
    {
        let c = s.get_char(i);
        v.push(c);
        i = i + 1;
        assert(v@ =~= s@.take(i as int));
    }
    assert(v@ =~= s@);
    v
}

/// Whether `a` comes before `b` in the order of `String`.
pub fn str_less(a: &str, b: &str) -> (r: bool)
    ensures
        r == str_lt(a@, b@),
{
    let x = chars_of(a);
    let y = chars_of(b);
    let mut i: usize = 0;
    assert(a@.skip(0) =~= a@);
    assert(b@.skip(0) =~= b@);
    while i < x.len() && i < y.len() && x[i] == y[i]
        invariant
            x@ == a@,
            y@ == b@,
            i <= x.len(),
            i <= y.len(),
            str_lt(a@, b@) == str_lt(a@.skip(i as int), b@.skip(i as int)),
        decreases x.len() - i,
    {
        assert(a@.skip(i as int).drop_first() =~= a@.skip(i + 1));
        assert(b@.skip(i as int).drop_first() =~= b@.skip(i + 1));
        i = i + 1;
    }
    let ghost p = a@.skip(i as int);
    let ghost q = b@.skip(i as int);
    if i == x.len() {
        assert(p.len() == 0);
        i < y.len()
    } else if i == y.len() {
        assert(q.len() == 0);
        false
    } else {
        assert(p[0] == x@[i as int]);
        assert(q[0] == y@[i as int]);
        x[i] < y[i]
    }
}

/// Whether two texts are equal.
pub fn str_equal(a: &str, b: &str) -> (r: bool)
    ensures
        r == (a@ == b@),
{
    let x = chars_of(a);
    let y = chars_of(b);
    if x.len() != y.len() {
        return false;
    }
    let mut i: usize = 0;
    while i < x.len()
        invariant
            x@ == a@,
            y@ == b@,
            x.len() == y.len(),
            i <= x.len(),
            forall|j: int| 0 <= j < i ==> x@[j] == y@[j],
        decreases x.len() - i,
    {
        if x[i] != y[i] {
            return false;
        }
        i = i + 1;
    }
    assert(x@ =~= y@);
    true
}

/// `pat` stands in `s` at `i`.
pub open spec fn occurs_at(s: Seq<char>, pat: Seq<char>, i: int) -> bool {
    0 <= i && i + pat.len() <= s.len() && s.subrange(i, i + pat.len()) == pat
}

/// Where `pat` first stands in `s` at or after `from`, as `str::find` answers from 0.
pub open spec fn find_from(s: Seq<char>, pat: Seq<char>, from: int) -> Option<int>
    decreases s.len() + 1 - from,
{
    if from < 0 || from + pat.len() > s.len() {
        None
    } else if occurs_at(s, pat, from) {
        Some(from)
    } else {
        find_from(s, pat, from + 1)
    }
}

pub open spec fn find(s: Seq<char>, pat: Seq<char>) -> Option<int> {
    find_from(s, pat, 0)
}

pub open spec fn contains_text(s: Seq<char>, pat: Seq<char>) -> bool {
    find(s, pat) is Some
}

pub proof fn lemma_find_from_bounds(s: Seq<char>, pat: Seq<char>, from: int)
    ensures
        find_from(s, pat, from) matches Some(i) ==> from <= i && occurs_at(s, pat, i)
            && forall|j: int| from <= j < i ==> !occurs_at(s, pat, j),
    decreases s.len() + 1 - from,
{
    if from < 0 || from + pat.len() > s.len() {
    } else if occurs_at(s, pat, from) {
    } else {
        lemma_find_from_bounds(s, pat, from + 1);
    }
}

/// Where `pat` first stands in `s`.
pub fn find_chars(s: &Vec<char>, pat: &Vec<char>) -> (r: Option<usize>)
    ensures
        match r {
            Some(i) => find(s@, pat@) == Some(i as int),
            None => find(s@, pat@) is None,
        },
{
    if pat.len() > s.len() {
        return None;
    }
    let last = s.len() - pat.len();
    let mut i: usize = 0;
    while i <= last
        invariant
            last == s.len() - pat.len(),
            pat.len() <= s.len(),
            i <= last + 1,
            find(s@, pat@) == find_from(s@, pat@, i as int),
        decreases last + 1 - i,
    {
        let mut k: usize = 0;
        let mut same = true;
        while k < pat.len()
            invariant
                i <= last,
                last == s.len() - pat.len(),
                k <= pat.len(),
                same == forall|j: int| 0 <= j < k ==> s@[i + j] == pat@[j],
            decreases pat.len() - k,
        {
            if s[i + k] != pat[k] {
                same = false;
            }
            k = k + 1;
        }
        if same {
            assert(s@.subrange(i as int, i + pat.len()) =~= pat@);
            return Some(i);
        }
        assert(!occurs_at(s@, pat@, i as int)) by {
            let j = choose|j: int| 0 <= j < pat.len() && s@[i + j] != pat@[j];
            assert(s@.subrange(i as int, i + pat.len())[j] == s@[i + j]);
        }
        i = i + 1;
    }
    None
}

/// Whether `pat` stands in `s`, as `str::contains` answers.
pub fn contains_str(s: &str, pat: &str) -> (r: bool)
    ensures
        r == contains_text(s@, pat@),
{
    let x = chars_of(s);
    let p = chars_of(pat);
    find_chars(&x, &p).is_some()
}

/// The characters `char::is_whitespace` names: the Unicode White_Space property.
pub open spec fn is_white(c: char) -> bool {
    let n = c as u32;
    ||| 0x09 <= n <= 0x0d
    ||| n == 0x20
    ||| n == 0x85
    ||| n == 0xa0
    ||| n == 0x1680
    ||| 0x2000 <= n <= 0x200a
    ||| n == 0x2028
    ||| n == 0x2029
    ||| n == 0x202f
    ||| n == 0x205f
    ||| n == 0x3000
}

pub fn white(c: char) -> (r: bool)
    ensures
        r == is_white(c),
{
    let n = c as u32;
    (0x09 <= n && n <= 0x0d) || n == 0x20 || n == 0x85 || n == 0xa0 || n == 0x1680 || (0x2000
        <= n && n <= 0x200a) || n == 0x2028 || n == 0x2029 || n == 0x202f || n == 0x205f || n
        == 0x3000
}

pub open spec fn trim_start(s: Seq<char>) -> Seq<char>
    decreases s.len(),
{
    if s.len() > 0 && is_white(s[0]) {
        trim_start(s.drop_first())
    } else {
        s
    }
}

pub open spec fn trim_end(s: Seq<char>) -> Seq<char>
    decreases s.len(),
{
    if s.len() > 0 && is_white(s.last()) {
        trim_end(s.drop_last())
    } else {
        s
    }
}

/// `str::trim`: white space off both ends.
pub open spec fn trim(s: Seq<char>) -> Seq<char> {
    trim_end(trim_start(s))
}

proof fn lemma_trim_start_skip(s: Seq<char>, i: int)
    requires
        0 <= i <= s.len(),
        forall|j: int| 0 <= j < i ==> is_white(s[j]),
    ensures
        trim_start(s) == trim_start(s.skip(i)),
    decreases i,
{
    if i > 0 {
        assert(s.drop_first().skip(i - 1) =~= s.skip(i));
        lemma_trim_start_skip(s.drop_first(), i - 1);
    } else {
        assert(s.skip(0) =~= s);
    }
}

proof fn lemma_trim_end_take(s: Seq<char>, i: int)
    requires
        0 <= i <= s.len(),
        forall|j: int| i <= j < s.len() ==> is_white(s[j]),
    ensures
        trim_end(s) == trim_end(s.take(i)),
    decreases s.len() - i,
{
    if i < s.len() {
        assert(s.drop_last().take(i) =~= s.take(i));
        lemma_trim_end_take(s.drop_last(), i);
    } else {
        assert(s.take(i) =~= s);
    }
}

/// Where `x[from..to]` starts and ends once white space is trimmed off both ends.
pub fn trim_bounds(x: &Vec<char>, from: usize, to: usize) -> (r: (usize, usize))
    requires
        from <= to <= x@.len(),
    ensures
        from <= r.0 <= r.1 <= to,
        x@.subrange(r.0 as int, r.1 as int) == trim(x@.subrange(from as int, to as int)),
{
    let ghost s = x@;
    let ghost t = s.subrange(from as int, to as int);
    let mut a = from;
    assert(t.skip(0) =~= t);
    while a < to && white(x[a])
        invariant
            x@ == s,
            from <= a <= to,
            to <= x.len(),
            t == s.subrange(from as int, to as int),
            trim_start(t) == trim_start(t.skip(a - from)),
        decreases to - a,
    {
        proof {
            let u = t.skip(a - from);
            assert(u[0] == x@[a as int]);
            assert(u.drop_first() =~= t.skip(a + 1 - from));
        }
        a = a + 1;
    }
    let ghost u = t.skip(a - from);
    assert(trim_start(t) == u) by {
        if a < to {
            assert(u[0] == x@[a as int]);
        }
    }
    assert(u =~= s.subrange(a as int, to as int));
    let mut b = to;
    assert(u.take(to - a) =~= u);
    while b > a && white(x[b - 1])
        invariant
            x@ == s,
            a <= b <= to,
            to <= x.len(),
            u == s.subrange(a as int, to as int),
            trim_end(u) == trim_end(u.take(b - a)),
        decreases b - a,
    {
        proof {
            let w = u.take(b - a);
            assert(w.last() == x@[b - 1]);
            assert(w.drop_last() =~= u.take(b - 1 - a));
        }
        b = b - 1;
    }
    proof {
        let w = u.take(b - a);
        if b > a {
            assert(w.last() == x@[b - 1]);
        }
        assert(trim_end(w) == w);
        assert(w =~= s.subrange(a as int, b as int));
    }
    (a, b)
}

/// A sequence of names kept as a set: in the order of `str_lt`, each once.
pub open spec fn sorted_set(s: Seq<Seq<char>>) -> bool {
    forall|i: int, j: int| 0 <= i < j < s.len() ==> str_lt(s[i], s[j])
}

/// `BTreeSet::insert` on the sorted sequence of a set.
pub open spec fn set_insert(s: Seq<Seq<char>>, x: Seq<char>) -> Seq<Seq<char>>
    decreases s.len(),
{
    if s.len() == 0 {
        seq![x]
    } else if s[0] == x {
        s
    } else if str_lt(x, s[0]) {
        seq![x] + s
    } else {
        seq![s[0]] + set_insert(s.drop_first(), x)
    }
}

/// The set of the names of a list, in order, as a `BTreeSet` built from it holds them.
pub open spec fn set_of(list: Seq<Seq<char>>) -> Seq<Seq<char>>
    decreases list.len(),
{
    if list.len() == 0 {
        seq![]
    } else {
        set_insert(set_of(list.drop_last()), list.last())
    }
}

pub open spec fn strs(v: Seq<String>) -> Seq<Seq<char>> {
    v.map_values(|s: String| s@)
}

proof fn lemma_set_insert_split(s: Seq<Seq<char>>, x: Seq<char>, i: int)
    requires
        0 <= i <= s.len(),
        forall|j: int| 0 <= j < i ==> s[j] != x && !str_lt(x, s[j]),
    ensures
        set_insert(s, x) == s.take(i) + set_insert(s.skip(i), x),
    decreases i,
{
    if i == 0 {
        assert(s.skip(0) =~= s);
        assert(s.take(0) + set_insert(s, x) =~= set_insert(s, x));
    } else {
        lemma_set_insert_split(s.drop_first(), x, i - 1);
        assert(s.drop_first().skip(i - 1) =~= s.skip(i));
        assert(seq![s[0]] + s.drop_first().take(i - 1) =~= s.take(i));
        assert(seq![s[0]] + (s.drop_first().take(i - 1) + set_insert(s.skip(i), x)) =~= s.take(i)
            + set_insert(s.skip(i), x));
    }
}

/// Puts `x` into the sorted set `v`, as `BTreeSet::insert` does.
pub fn insert_name(v: &mut Vec<String>, x: String)
    ensures
        strs(final(v)@) == set_insert(strs(old(v)@), x@),
{
    let ghost s = strs(v@);
    let mut i: usize = 0;
    while i < v.len()
        invariant
            s == strs(v@),
            s == strs(old(v)@),
            i <= v.len(),
            forall|j: int| 0 <= j < i ==> s[j] != x@ && !str_lt(x@, s[j]),
        decreases v.len() - i,
    {
        if str_equal(v[i].as_str(), x.as_str()) {
            assert(s[i as int] == x@);
            proof {
                lemma_set_insert_split(s, x@, i as int);
                assert(s.skip(i as int)[0] == s[i as int]);
                assert(set_insert(s.skip(i as int), x@) == s.skip(i as int));
                assert(s.take(i as int) + s.skip(i as int) =~= s);
                assert(set_insert(s, x@) == s);
                assert(strs(v@) == s);
            }
            return;
        }
        if str_less(x.as_str(), v[i].as_str()) {
            assert(s[i as int] != x@ && str_lt(x@, s[i as int]));
            proof {
                lemma_set_insert_split(s, x@, i as int);
                assert(s.skip(i as int)[0] == s[i as int]);
            }
            v.insert(i, x);
            assert(strs(v@) =~= s.take(i as int) + (seq![x@] + s.skip(i as int)));
            return;
        }
        i = i + 1;
    }
    proof {
        lemma_set_insert_split(s, x@, i as int);
    }
    v.push(x);
    assert(strs(v@) =~= s.take(i as int) + seq![x@]);
}

/// Whether the sorted set `v` holds `x`.
pub fn has_name(v: &Vec<String>, x: &str) -> (r: bool)
    ensures
        r == strs(v@).contains(x@),
{
    let mut i: usize = 0;
    while i < v.len()
        invariant
            i <= v.len(),
            forall|j: int| 0 <= j < i ==> v@[j]@ != x@,
        decreases v.len() - i,
    {
        if str_equal(v[i].as_str(), x) {
            assert(strs(v@)[i as int] == x@);
            return true;
        }
        i = i + 1;
    }
    proof {
        if strs(v@).contains(x@) {
            let j = choose|j: int| 0 <= j < strs(v@).len() && strs(v@)[j] == x@;
            assert(v@[j]@ == x@);
        }
    }
    false
}

pub proof fn lemma_set_insert_sorted(s: Seq<Seq<char>>, x: Seq<char>)
    requires
        sorted_set(s),
    ensures
        sorted_set(set_insert(s, x)),
        forall|y: Seq<char>| #[trigger] set_insert(s, x).contains(y) <==> (s.contains(y) || y == x),
    decreases s.len(),
{
    if s.len() == 0 {
        assert(set_insert(s, x) =~= seq![x]);
        assert(seq![x][0] == x);
    } else if s[0] == x {
    } else if str_lt(x, s[0]) {
        let r = seq![x] + s;
        assert forall|i: int, j: int| 0 <= i < j < r.len() implies str_lt(r[i], r[j]) by {
            if i == 0 && j > 1 {
                lemma_str_lt_transitive(x, s[0], s[j - 1]);
            }
        }
        assert forall|y: Seq<char>| r.contains(y) <==> (s.contains(y) || y == x) by {
            if s.contains(y) {
                let k = choose|k: int| 0 <= k < s.len() && s[k] == y;
                assert(r[k + 1] == y);
            }
            if y == x {
                assert(r[0] == y);
            }
            if r.contains(y) {
                let k = choose|k: int| 0 <= k < r.len() && r[k] == y;
                if k > 0 {
                    assert(s[k - 1] == y);
                }
            }
        }
    } else {
        let t = s.drop_first();
        assert(sorted_set(t));
        lemma_set_insert_sorted(t, x);
        lemma_str_lt_total(x, s[0]);
        let r = seq![s[0]] + set_insert(t, x);
        assert forall|i: int, j: int| 0 <= i < j < r.len() implies str_lt(r[i], r[j]) by {
            if i == 0 {
                let y = r[j];
                assert(set_insert(t, x).contains(y));
                if y != x {
                    assert(t.contains(y));
                    let k = choose|k: int| 0 <= k < t.len() && t[k] == y;
                    assert(s[k + 1] == y);
                }
            }
        }
        assert forall|y: Seq<char>| r.contains(y) <==> (s.contains(y) || y == x) by {
            if s.contains(y) {
                let k = choose|k: int| 0 <= k < s.len() && s[k] == y;
                if k == 0 {
                    assert(r[0] == y);
                } else {
                    assert(t[k - 1] == y);
                    assert(t.contains(y));
                    assert(set_insert(t, x).contains(y));
                    let m = choose|m: int|
                        0 <= m < set_insert(t, x).len() && set_insert(t, x)[m] == y;
                    assert(r[m + 1] == y);
                }
            }
            if y == x {
                assert(set_insert(t, x).contains(y));
                let m = choose|m: int| 0 <= m < set_insert(t, x).len() && set_insert(t, x)[m] == y;
                assert(r[m + 1] == y);
            }
            if r.contains(y) {
                let k = choose|k: int| 0 <= k < r.len() && r[k] == y;
                if k == 0 {
                    assert(s[0] == y);
                } else {
                    assert(set_insert(t, x)[k - 1] == y);
                    assert(set_insert(t, x).contains(y));
                    if t.contains(y) {
                        let m = choose|m: int| 0 <= m < t.len() && t[m] == y;
                        assert(s[m + 1] == y);
                    }
                }
            }
        }
    }
}

/// The set of a list is sorted, and holds just the names of the list.
pub proof fn lemma_set_of(list: Seq<Seq<char>>)
    ensures
        sorted_set(set_of(list)),
        forall|y: Seq<char>| #[trigger] set_of(list).contains(y) <==> list.contains(y),
    decreases list.len(),
{
    if list.len() > 0 {
        lemma_set_of(list.drop_last());
        lemma_set_insert_sorted(set_of(list.drop_last()), list.last());
        assert forall|y: Seq<char>| set_of(list).contains(y) <==> list.contains(y) by {
            if list.drop_last().contains(y) {
                let k = choose|k: int| 0 <= k < list.drop_last().len() && list.drop_last()[k] == y;
                assert(list[k] == y);
            }
            if y == list.last() {
                assert(list[list.len() - 1] == y);
            }
            if list.contains(y) {
                let k = choose|k: int| 0 <= k < list.len() && list[k] == y;
                if k < list.len() - 1 {
                    assert(list.drop_last()[k] == y);
                }
            }
        }
    } else {
        assert(set_of(list) =~= Seq::<Seq<char>>::empty());
    }
}

/// A sorted set is its own set.
pub proof fn lemma_set_of_sorted(s: Seq<Seq<char>>)
    requires
        sorted_set(s),
    ensures
        set_of(s) == s,
    decreases s.len(),
{
    if s.len() > 0 {
        let t = s.drop_last();
        let x = s.last();
        assert(sorted_set(t));
        lemma_set_of_sorted(t);
        assert forall|j: int| 0 <= j < t.len() implies t[j] != x && !str_lt(x, t[j]) by {
            assert(str_lt(s[j], s[s.len() - 1]));
            if t[j] == x {
                lemma_str_lt_irreflexive(x);
            }
            if str_lt(x, t[j]) {
                lemma_str_lt_transitive(t[j], x, t[j]);
                lemma_str_lt_irreflexive(t[j]);
            }
        }
        lemma_set_insert_split(t, x, t.len() as int);
        assert(t.skip(t.len() as int) =~= Seq::<Seq<char>>::empty());
        assert(t.take(t.len() as int) =~= t);
        assert(t + seq![x] =~= s);
    } else {
        assert(set_of(s) =~= s);
    }
}

/// The set of the names of a list, each once, in the order of `str_lt`.
pub fn name_set(v: &Vec<String>) -> (r: Vec<String>)
    ensures
        strs(r@) == set_of(strs(v@)),
{
    let ghost all = strs(v@);
    let mut r: Vec<String> = Vec::new();
    let mut i: usize = 0;
    assert(all.take(0) =~= Seq::<Seq<char>>::empty());
    assert(strs(r@) =~= Seq::<Seq<char>>::empty());
    while i < v.len()
        invariant
            all == strs(v@),
            all.len() == v@.len(),
            i <= v.len(),
            strs(r@) == set_of(all.take(i as int)),
        decreases v.len() - i,
    {
        proof {
            assert(all.take(i + 1).drop_last() =~= all.take(i as int));
            assert(all.take(i + 1).last() == v@[i as int]@);
        }
        insert_name(&mut r, v[i].clone());
        i = i + 1;
    }
    assert(all.take(i as int) =~= all);
    r
}

} // verus!
