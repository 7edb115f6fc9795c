//! Character-level text model shared by the identifier, effect and CSV code.
//!
//! Strings are reasoned about through their view as a `Seq<char>`.
//! Paths are sequences of segments separated by `::`.
use vstd::prelude::*;
use vstd::string::StrSliceExecFns;

verus! {

/// The two-character path separator `::`.
pub open spec fn sep() -> Seq<char> {
    seq![':', ':']
}

/// Every `-` replaced by `_`.
pub open spec fn replace_hyphens_spec(s: Seq<char>) -> Seq<char> {
    s.map_values(|c: char| if c == '-' { '_' } else { c })
}

/// `s` holds no `-`.
pub open spec fn no_hyphens(s: Seq<char>) -> bool {
    forall|i: int| 0 <= i < s.len() ==> s[i] != '-'
}

/// `s` starts with the separator `::`.
pub open spec fn starts_with_sep(s: Seq<char>) -> bool {
    s.len() >= 2 && s[0] == ':' && s[1] == ':'
}

/// `s` ends with the separator `::`.
pub open spec fn ends_with_sep(s: Seq<char>) -> bool {
    s.len() >= 2 && s[s.len() - 2] == ':' && s[s.len() - 1] == ':'
}

/// The segments of `s` between occurrences of `::`, searched from the left
/// (what `str::split("::")` yields). There is always at least one segment.
pub open spec fn split_sep(s: Seq<char>) -> Seq<Seq<char>>
    decreases s.len(),
{
    if s.len() < 2 {
        seq![s]
    } else if starts_with_sep(s) {
        seq![Seq::<char>::empty()] + split_sep(s.skip(2))
    } else {
        let r = split_sep(s.skip(1));
        r.update(0, seq![s[0]] + r[0])
    }
}

/// Split at the first `::` (what `str::split_once("::")` yields).
pub open spec fn split_once_sep(s: Seq<char>) -> Option<(Seq<char>, Seq<char>)>
    decreases s.len(),
{
    if s.len() < 2 {
        None
    } else if starts_with_sep(s) {
        Some((Seq::<char>::empty(), s.skip(2)))
    } else {
        match split_once_sep(s.skip(1)) {
            None => None,
            Some((a, b)) => Some((seq![s[0]] + a, b)),
        }
    }
}

/// Split at the last `::` (what `str::rsplit_once("::")` yields).
pub open spec fn rsplit_once_sep(s: Seq<char>) -> Option<(Seq<char>, Seq<char>)>
    decreases s.len(),
{
    if s.len() < 2 {
        None
    } else if ends_with_sep(s) {
        Some((s.take(s.len() - 2), Seq::<char>::empty()))
    } else {
        match rsplit_once_sep(s.drop_last()) {
            None => None,
            Some((a, b)) => Some((a, b.push(s.last()))),
        }
    }
}

/// Segments joined with `::` between consecutive segments.
pub open spec fn join_sep(parts: Seq<Seq<char>>) -> Seq<char>
    decreases parts.len(),
{
    if parts.len() == 0 {
        Seq::<char>::empty()
    } else if parts.len() == 1 {
        parts[0]
    } else {
        join_sep(parts.drop_last()) + sep() + parts.last()
    }
}

/// Every `,` removed.
pub open spec fn remove_commas(s: Seq<char>) -> Seq<char> {
    s.filter(|c: char| c != ',')
}

/// The decimal digit for `d < 10`.
pub open spec fn digit_char(d: nat) -> char {
    if d == 0 { '0' }
    else if d == 1 { '1' }
    else if d == 2 { '2' }
    else if d == 3 { '3' }
    else if d == 4 { '4' }
    else if d == 5 { '5' }
    else if d == 6 { '6' }
    else if d == 7 { '7' }
    else if d == 8 { '8' }
    else { '9' }
}

/// The decimal notation of `n`, without leading zeros (what `Display` prints for an integer).
pub open spec fn decimal(n: nat) -> Seq<char>
    decreases n,
{
    if n < 10 {
        seq![digit_char(n)]
    } else {
        decimal(n / 10).push(digit_char(n % 10))
    }
}

/// Appends one character to a string.
/// Calls `String::push`, which appends the given `char` to the end of the string.
#[verifier::external_body]
pub(crate) fn string_push(s: &mut String, c: char)
    ensures
        final(s)@ == old(s)@.push(c),
{
    s.push(c);
}

/// The characters of `s`, in order.
pub fn chars_of(s: &str) -> (v: Vec<char>)
    ensures
        v@ == s@,
{
    let n = s.unicode_len();
    let mut v: Vec<char> = Vec::new();
    let mut i: usize = 0;
    while i < n
        invariant
            n == s@.len(),
            i <= n,
            v@ == s@.take(i as int),
        decreases n - i,
    {
        let c = s.get_char(i);
        v.push(c);
        i = i + 1;
        assert(v@ =~= s@.take(i as int));
    }
    assert(v@ =~= s@);
    v
}

/// Appends the characters of `v` to `s`.
pub fn push_chars(s: &mut String, v: &Vec<char>)
    ensures
        final(s)@ == old(s)@ + v@,
{
    let mut i: usize = 0;
    while i < v.len()
        invariant
            i <= v.len(),
            s@ == old(s)@ + v@.take(i as int),
        decreases v.len() - i,
    {
        string_push(s, v[i]);
        i = i + 1;
        assert(s@ =~= old(s)@ + v@.take(i as int));
    }
    assert(v@.take(v.len() as int) =~= v@);
}

/// A string holding exactly the characters of `v`.
pub fn from_chars(v: &Vec<char>) -> (s: String)
    ensures
        s@ == v@,
{
    let mut s = String::new();
    push_chars(&mut s, v);
    assert(s@ =~= v@);
    s
}

/// Appends the string `t` to `s`.
pub fn push_str(s: &mut String, t: &str)
    ensures
        final(s)@ == old(s)@ + t@,
{
    let v = chars_of(t);
    push_chars(s, &v);
}

/// A copy of a string.
pub fn copy_string(s: &str) -> (r: String)
    ensures
        r@ == s@,
{
    let v = chars_of(s);
    from_chars(&v)
}

/// Appends the separator `::`.
pub fn push_sep(s: &mut String)
    ensures
        final(s)@ == old(s)@ + sep(),
{
    string_push(s, ':');
    string_push(s, ':');
    assert(s@ =~= old(s)@ + sep());
}

/// The characters of `v` with every `-` replaced by `_`.
pub fn replace_hyphens_chars(v: &Vec<char>) -> (r: Vec<char>)
    ensures
        r@ == replace_hyphens_spec(v@),
{
    let mut r: Vec<char> = Vec::new();
    let mut i: usize = 0;
    while i < v.len()
        invariant
            i <= v.len(),
            r@ == replace_hyphens_spec(v@.take(i as int)),
        decreases v.len() - i,
    {
        let c = v[i];
        if c == '-' {
            r.push('_');
        } else {
            r.push(c);
        }
        i = i + 1;
        assert(r@ =~= replace_hyphens_spec(v@.take(i as int)));
    }
    assert(v@.take(v.len() as int) =~= v@);
    r
}

/// Replacing hyphens leaves no hyphen behind.
pub proof fn lemma_replace_hyphens_no_hyphens(s: Seq<char>)
    ensures
        no_hyphens(replace_hyphens_spec(s)),
{
}

/// Replacing hyphens in a string without any is the identity.
pub proof fn lemma_replace_hyphens_identity(s: Seq<char>)
    requires
        no_hyphens(s),
    ensures
        replace_hyphens_spec(s) == s,
{
    assert(replace_hyphens_spec(s) =~= s);
}

/// Whether `p` is a prefix of `s`.
pub fn is_prefix_chars(p: &Vec<char>, s: &Vec<char>) -> (b: bool)
    ensures
        b == p@.is_prefix_of(s@),
{
    if p.len() > s.len() {
        return false;
    }
    let mut i: usize = 0;
    while i < p.len()
        invariant
            p.len() <= s.len(),
            i <= p.len(),
            forall|j: int| 0 <= j < i ==> p@[j] == s@[j],
        decreases p.len() - i,
    {
        if p[i] != s[i] {
            return false;
        }
        i = i + 1;
    }
    assert(p@ =~= s@.subrange(0, p@.len() as int));
    true
}

/// Whether two character sequences are equal.
pub fn chars_eq(a: &Vec<char>, b: &Vec<char>) -> (r: bool)
    ensures
        r == (a@ == b@),
{
    if a.len() != b.len() {
        return false;
    }
    let r = is_prefix_chars(a, b);
    if r {
        assert(a@ =~= b@);
    }
    r
}

/// Whether two strings are equal.
pub fn str_eq(a: &str, b: &str) -> (r: bool)
    ensures
        r == (a@ == b@),
{
    let va = chars_of(a);
    let vb = chars_of(b);
    chars_eq(&va, &vb)
}

/// Whether `s` contains the character `c`.
pub fn contains_char(s: &Vec<char>, c: char) -> (r: bool)
    ensures
        r == s@.contains(c),
{
    let mut i: usize = 0;
    while i < s.len()
        invariant
            i <= s.len(),
            forall|j: int| 0 <= j < i ==> s@[j] != c,
        decreases s.len() - i,
    {
        if s[i] == c {
            assert(s@[i as int] == c);
            return true;
        }
        i = i + 1;
    }
    false
}


/// The view of each segment.
pub open spec fn views(v: Seq<Vec<char>>) -> Seq<Seq<char>> {
    v.map_values(|p: Vec<char>| p@)
}

/// Prepend `x` to the first segment.
pub open spec fn prepend_first(x: Seq<char>, r: Seq<Seq<char>>) -> Seq<Seq<char>> {
    r.update(0, x + r[0])
}

/// There is always at least one segment.
pub proof fn lemma_split_sep_nonempty(s: Seq<char>)
    ensures
        split_sep(s).len() >= 1,
    decreases s.len(),
{
    if s.len() >= 2 {
        if starts_with_sep(s) {
            lemma_split_sep_nonempty(s.skip(2));
        } else {
            lemma_split_sep_nonempty(s.skip(1));
        }
    }
}

/// The segments of `s`, as computed by `split_sep`.
pub fn split_sep_exec(v: &Vec<char>) -> (r: Vec<Vec<char>>)
    ensures
        views(r@) == split_sep(v@),
{
    let n = v.len();
    let mut pieces: Vec<Vec<char>> = Vec::new();
    let mut cur: Vec<char> = Vec::new();
    let mut i: usize = 0;
    proof {
        lemma_split_sep_nonempty(v@);
        assert(v@.skip(0) =~= v@);
        assert(prepend_first(cur@, split_sep(v@)) =~= split_sep(v@));
        assert(views(pieces@) =~= Seq::<Seq<char>>::empty());
    }
    while i < n && n - i >= 2
        invariant
            n == v.len(),
            i <= n,
            split_sep(v@) == views(pieces@) + prepend_first(cur@, split_sep(v@.skip(i as int))),
        decreases n - i,
    {
        let ghost t = v@.skip(i as int);
        proof {
            lemma_split_sep_nonempty(t.skip(1));
            lemma_split_sep_nonempty(t.skip(2));
        }
        if v[i] == ':' && v[i + 1] == ':' {
            assert(starts_with_sep(t));
            assert(t.skip(2) =~= v@.skip(i + 2));
            let ghost old_pieces = pieces@;
            let ghost rest = split_sep(t.skip(2));
            assert(prepend_first(cur@, split_sep(t)) =~= seq![cur@] + rest);
            pieces.push(cur);
            cur = Vec::new();
            i = i + 2;
            assert(views(pieces@) =~= views(old_pieces) + seq![views(pieces@).last()]);
            assert(prepend_first(cur@, rest) =~= rest);
        } else {
            assert(!starts_with_sep(t));
            assert(t.skip(1) =~= v@.skip(i + 1));
            let ghost old_cur = cur@;
            let c = v[i];
            let ghost r = split_sep(t.skip(1));
            assert(split_sep(t) == r.update(0, seq![c] + r[0]));
            cur.push(c);
            i = i + 1;
            assert(old_cur + (seq![c] + r[0]) =~= cur@ + r[0]);
            assert(prepend_first(old_cur, split_sep(t)) =~= prepend_first(cur@, split_sep(v@.skip(i as int))));
        }
    }
    let ghost t = v@.skip(i as int);
    assert(split_sep(t) == seq![t]);
    let ghost old_pieces = pieces@;
    let ghost cur0 = cur@;
    let mut j: usize = i;
    while j < n
        invariant
            n == v.len(),
            i <= j <= n,
            cur@ == cur0 + v@.subrange(i as int, j as int),
        decreases n - j,
    {
        cur.push(v[j]);
        j = j + 1;
        assert(cur@ =~= cur0 + v@.subrange(i as int, j as int));
    }
    proof {
        assert(v@.subrange(i as int, n as int) =~= t);
    }
    pieces.push(cur);
    assert(views(pieces@) =~= views(old_pieces) + prepend_first(cur0, seq![t]));
    pieces
}

/// `s` holds the separator at position `i`.
pub open spec fn sep_at(s: Seq<char>, i: int) -> bool {
    0 <= i && i + 1 < s.len() && s[i] == ':' && s[i + 1] == ':'
}

proof fn lemma_split_once_at(s: Seq<char>, i: int)
    requires
        sep_at(s, i),
        forall|j: int| 0 <= j < i ==> !sep_at(s, j),
    ensures
        split_once_sep(s) == Some((s.take(i), s.skip(i + 2))),
    decreases i,
{
    if i > 0 {
        assert(!sep_at(s, 0));
        let t = s.skip(1);
        assert forall|j: int| 0 <= j < i - 1 implies !sep_at(t, j) by {
            assert(!sep_at(s, j + 1));
        }
        lemma_split_once_at(t, i - 1);
        assert(seq![s[0]] + t.take(i - 1) =~= s.take(i));
        assert(t.skip(i + 1) =~= s.skip(i + 2));
    }
}

proof fn lemma_split_once_none(s: Seq<char>)
    requires
        forall|j: int| !sep_at(s, j),
    ensures
        split_once_sep(s) is None,
    decreases s.len(),
{
    if s.len() >= 2 {
        assert(!sep_at(s, 0));
        let t = s.skip(1);
        assert forall|j: int| !sep_at(t, j) by {
            assert(!sep_at(s, j + 1));
        }
        lemma_split_once_none(t);
    }
}

pub proof fn lemma_rsplit_once_at(s: Seq<char>, i: int)
    requires
        sep_at(s, i),
        forall|j: int| i < j ==> !sep_at(s, j),
    ensures
        rsplit_once_sep(s) == Some((s.take(i), s.skip(i + 2))),
    decreases s.len(),
{
    if i + 2 < s.len() {
        assert(!sep_at(s, s.len() - 2));
        let t = s.drop_last();
        assert forall|j: int| i < j implies !sep_at(t, j) by {
            assert(!sep_at(s, j));
        }
        lemma_rsplit_once_at(t, i);
        assert(t.take(i) =~= s.take(i));
        assert(t.skip(i + 2).push(s.last()) =~= s.skip(i + 2));
    } else {
        assert(s.take(s.len() - 2) =~= s.take(i));
        assert(s.skip(i + 2) =~= Seq::<char>::empty());
    }
}

proof fn lemma_rsplit_once_none(s: Seq<char>)
    requires
        forall|j: int| !sep_at(s, j),
    ensures
        rsplit_once_sep(s) is None,
    decreases s.len(),
{
    if s.len() >= 2 {
        assert(!sep_at(s, s.len() - 2));
        let t = s.drop_last();
        assert forall|j: int| !sep_at(t, j) by {
            assert(!sep_at(s, j));
        }
        lemma_rsplit_once_none(t);
    }
}

/// The characters of `v` in `[from, to)`.
pub fn sub_chars(v: &Vec<char>, from: usize, to: usize) -> (r: Vec<char>)
    requires
        from <= to <= v.len(),
    ensures
        r@ == v@.subrange(from as int, to as int),
{
    let mut r: Vec<char> = Vec::new();
    let mut j: usize = from;
    while j < to
        invariant
            from <= j <= to <= v.len(),
            r@ == v@.subrange(from as int, j as int),
        decreases to - j,
    {
        r.push(v[j]);
        j = j + 1;
        assert(r@ =~= v@.subrange(from as int, j as int));
    }
    r
}

/// Split at the first `::`.
pub fn split_once_exec(v: &Vec<char>) -> (r: Option<(Vec<char>, Vec<char>)>)
    ensures
        match r {
            None => split_once_sep(v@) is None,
            Some((a, b)) => split_once_sep(v@) == Some((a@, b@)),
        },
{
    let n = v.len();
    let mut i: usize = 0;
    while i < n && n - i >= 2
        invariant
            n == v.len(),
            i <= n,
            forall|j: int| 0 <= j < i ==> !sep_at(v@, j),
        decreases n - i,
    {
        if v[i] == ':' && v[i + 1] == ':' {
            proof {
                lemma_split_once_at(v@, i as int);
            }
            let a = sub_chars(v, 0, i);
            let b = sub_chars(v, i + 2, n);
            assert(a@ =~= v@.take(i as int));
            assert(b@ =~= v@.skip(i + 2));
            return Some((a, b));
        }
        i = i + 1;
    }
    proof {
        assert forall|j: int| !sep_at(v@, j) by {
            if 0 <= j < i {
            }
        }
        lemma_split_once_none(v@);
    }
    None
}

/// Split at the last `::`.
pub fn rsplit_once_exec(v: &Vec<char>) -> (r: Option<(Vec<char>, Vec<char>)>)
    ensures
        match r {
            None => rsplit_once_sep(v@) is None,
            Some((a, b)) => rsplit_once_sep(v@) == Some((a@, b@)),
        },
{
    let n = v.len();
    if n < 2 {
        proof {
            lemma_rsplit_once_none(v@);
        }
        return None;
    }
    let mut k: usize = n - 1;
    while k > 0
        invariant
            n == v.len(),
            n >= 2,
            k <= n - 1,
            forall|j: int| k <= j ==> !sep_at(v@, j),
        decreases k,
    {
        let i = k - 1;
        if v[i] == ':' && v[i + 1] == ':' {
            proof {
                lemma_rsplit_once_at(v@, i as int);
            }
            let a = sub_chars(v, 0, i);
            let b = sub_chars(v, i + 2, n);
            assert(a@ =~= v@.take(i as int));
            assert(b@ =~= v@.skip(i + 2));
            return Some((a, b));
        }
        k = i;
    }
    proof {
        lemma_rsplit_once_none(v@);
    }
    None
}

/// Joining `a` in front of a nonempty list of segments.
pub proof fn lemma_join_prepend(a: Seq<char>, r: Seq<Seq<char>>)
    requires
        r.len() >= 1,
    ensures
        join_sep(seq![a] + r) == a + sep() + join_sep(r),
    decreases r.len(),
{
    let x = seq![a] + r;
    if r.len() == 1 {
        assert(x.drop_last() =~= seq![a]);
        assert(x.last() == r[0]);
        assert(join_sep(seq![a]) == a);
        assert(join_sep(r) == r[0]);
    } else {
        lemma_join_prepend(a, r.drop_last());
        assert(x.drop_last() =~= seq![a] + r.drop_last());
        assert(x.last() == r.last());
        assert(join_sep(x) =~= a + sep() + join_sep(r));
    }
}

/// Joining after prepending to the first segment.
pub proof fn lemma_join_prepend_first(x: Seq<char>, r: Seq<Seq<char>>)
    requires
        r.len() >= 1,
    ensures
        join_sep(prepend_first(x, r)) == x + join_sep(r),
{
    let u = prepend_first(x, r);
    if r.len() == 1 {
        assert(join_sep(u) == u[0]);
    } else {
        let rest = r.skip(1);
        assert(r =~= seq![r[0]] + rest);
        assert(u =~= seq![x + r[0]] + rest);
        lemma_join_prepend(r[0], rest);
        lemma_join_prepend(x + r[0], rest);
        assert(join_sep(u) =~= x + join_sep(r));
    }
}

/// Joining the segments of a path gives back the path.
pub proof fn lemma_join_split(s: Seq<char>)
    ensures
        join_sep(split_sep(s)) == s,
    decreases s.len(),
{
    if s.len() >= 2 {
        if starts_with_sep(s) {
            let t = s.skip(2);
            lemma_split_sep_nonempty(t);
            lemma_join_split(t);
            lemma_join_prepend(Seq::<char>::empty(), split_sep(t));
            assert(Seq::<char>::empty() + sep() + t =~= s);
        } else {
            let t = s.skip(1);
            lemma_split_sep_nonempty(t);
            lemma_join_split(t);
            lemma_join_prepend_first(seq![s[0]], split_sep(t));
            assert(seq![s[0]] + t =~= s);
        }
    }
}

/// Joining a nonempty prefix of the segments gives a prefix of the join.
pub proof fn lemma_join_take_prefix(p: Seq<Seq<char>>, m: int)
    requires
        1 <= m <= p.len(),
    ensures
        join_sep(p.take(m)).is_prefix_of(join_sep(p)),
    decreases p.len(),
{
    if m == p.len() {
        assert(p.take(m) =~= p);
    } else {
        let d = p.drop_last();
        lemma_join_take_prefix(d, m);
        assert(d.take(m) =~= p.take(m));
        assert(p.len() >= 2);
        assert(join_sep(p) == join_sep(d) + sep() + p.last());
    }
}

/// Joining a proper nonempty prefix of the segments, then `::`, gives a prefix
/// of the join.
pub proof fn lemma_join_take_sep_prefix(p: Seq<Seq<char>>, m: int)
    requires
        1 <= m < p.len(),
    ensures
        (join_sep(p.take(m)) + sep()).is_prefix_of(join_sep(p)),
    decreases p.len(),
{
    let d = p.drop_last();
    assert(join_sep(p) == join_sep(d) + sep() + p.last());
    assert(d.take(m) =~= p.take(m));
    if m == p.len() - 1 {
        assert(d =~= p.take(m));
        assert((join_sep(d) + sep()) =~= (join_sep(p)).subrange(0, (join_sep(d) + sep()).len() as int));
    } else {
        lemma_join_take_sep_prefix(d, m);
        let a = join_sep(p.take(m)) + sep();
        assert(a =~= join_sep(p).subrange(0, a.len() as int)) by {
            assert forall|i: int| 0 <= i < a.len() implies a[i] == join_sep(p)[i] by {
                assert(a[i] == join_sep(d)[i]);
            }
        }
    }
}

/// Text without a `:` is one segment.
pub proof fn lemma_split_colon_free(a: Seq<char>)
    requires
        !a.contains(':'),
    ensures
        split_sep(a) == seq![a],
    decreases a.len(),
{
    if a.len() >= 2 {
        assert(a[0] != ':');
        let t = a.skip(1);
        assert(!t.contains(':')) by {
            if t.contains(':') {
                let i = choose|i: int| 0 <= i < t.len() && t[i] == ':';
                assert(a[i + 1] == ':');
            }
        }
        lemma_split_colon_free(t);
        assert(seq![a[0]] + t =~= a);
    }
}

/// A segment without `:` followed by `::` splits off as the first segment.
pub proof fn lemma_split_colon_free_sep(a: Seq<char>, t: Seq<char>)
    requires
        !a.contains(':'),
    ensures
        split_sep(a + sep() + t) == seq![a] + split_sep(t),
    decreases a.len(),
{
    let s = a + sep() + t;
    if a.len() == 0 {
        assert(a =~= Seq::<char>::empty());
        assert(s =~= sep() + t);
        assert(starts_with_sep(s));
        assert(s.skip(2) =~= t);
    } else {
        assert(s[0] == a[0]);
        assert(a[0] != ':');
        let a1 = a.skip(1);
        assert(!a1.contains(':')) by {
            if a1.contains(':') {
                let i = choose|i: int| 0 <= i < a1.len() && a1[i] == ':';
                assert(a[i + 1] == ':');
            }
        }
        lemma_split_colon_free_sep(a1, t);
        assert(s.skip(1) =~= a1 + sep() + t);
        assert(seq![a[0]] + a1 =~= a);
        assert(!starts_with_sep(s));
        let r = split_sep(s.skip(1));
        assert(r == seq![a1] + split_sep(t));
        assert(split_sep(s) == r.update(0, seq![s[0]] + r[0]));
        assert(split_sep(s) =~= seq![a] + split_sep(t));
    }
}

/// Joining segments without `:` and splitting again gives the segments back.
pub proof fn lemma_split_join_colon_free(p: Seq<Seq<char>>)
    requires
        p.len() >= 1,
        forall|k: int| 0 <= k < p.len() ==> !(#[trigger] p[k]).contains(':'),
    ensures
        split_sep(join_sep(p)) == p,
    decreases p.len(),
{
    if p.len() == 1 {
        lemma_split_colon_free(p[0]);
        assert(seq![p[0]] =~= p);
    } else {
        let r = p.skip(1);
        assert(p =~= seq![p[0]] + r);
        lemma_join_prepend(p[0], r);
        assert forall|k: int| 0 <= k < r.len() implies !(#[trigger] r[k]).contains(':') by {
            assert(r[k] == p[k + 1]);
        }
        lemma_split_join_colon_free(r);
        lemma_split_colon_free_sep(p[0], join_sep(r));
    }
}

/// Joining two or more segments without `:` splits at the last `::` into the
/// join of all but the last segment, and the last.
pub proof fn lemma_rsplit_join_colon_free(p: Seq<Seq<char>>)
    requires
        p.len() >= 2,
        forall|k: int| 0 <= k < p.len() ==> !(#[trigger] p[k]).contains(':'),
    ensures
        rsplit_once_sep(join_sep(p)) == Some((join_sep(p.drop_last()), p.last())),
{
    let a = join_sep(p.drop_last());
    let b = p.last();
    let s = join_sep(p);
    assert(s == a + sep() + b);
    let i = a.len() as int;
    assert(sep_at(s, i));
    assert(!b.contains(':')) by {
        assert(b == p[p.len() - 1]);
    }
    assert forall|j: int| i < j implies !sep_at(s, j) by {
        if sep_at(s, j) {
            if j == i + 1 {
                assert(s[j + 1] == b[0]);
            } else {
                assert(s[j] == b[j - i - 2]);
            }
        }
    }
    lemma_rsplit_once_at(s, i);
    assert(s.take(i) =~= a);
    assert(s.skip(i + 2) =~= b);
}

/// Text without a `:` holds no separator.
pub proof fn lemma_rsplit_colon_free(a: Seq<char>)
    requires
        !a.contains(':'),
    ensures
        rsplit_once_sep(a) is None,
{
    assert forall|j: int| !sep_at(a, j) by {
        if sep_at(a, j) {
            assert(a[j] == ':');
        }
    }
    lemma_rsplit_once_none(a);
}

/// No segment of a hyphen-free path holds a hyphen.
pub proof fn lemma_split_no_hyphens(s: Seq<char>)
    requires
        no_hyphens(s),
    ensures
        forall|k: int| 0 <= k < split_sep(s).len() ==> no_hyphens(#[trigger] split_sep(s)[k]),
    decreases s.len(),
{
    if s.len() >= 2 {
        if starts_with_sep(s) {
            let t = s.skip(2);
            lemma_split_no_hyphens(t);
            let e = Seq::<char>::empty();
            assert(split_sep(s) == seq![e] + split_sep(t));
            assert forall|k: int| 0 <= k < split_sep(s).len() implies no_hyphens(#[trigger] split_sep(s)[k]) by {
                if k > 0 {
                    assert(split_sep(s)[k] == split_sep(t)[k - 1]);
                }
            }
        } else {
            let t = s.skip(1);
            lemma_split_no_hyphens(t);
            lemma_split_sep_nonempty(t);
            let r = split_sep(t);
            assert(split_sep(s) == r.update(0, seq![s[0]] + r[0]));
            assert forall|k: int| 0 <= k < split_sep(s).len() implies no_hyphens(#[trigger] split_sep(s)[k]) by {
                if k == 0 {
                    let h = seq![s[0]] + r[0];
                    assert forall|i: int| 0 <= i < h.len() implies h[i] != '-' by {
                        if i > 0 {
                            assert(h[i] == r[0][i - 1]);
                        }
                    }
                } else {
                    assert(split_sep(s)[k] == r[k]);
                }
            }
        }
    }
}

/// Joining hyphen-free segments gives a hyphen-free path.
pub proof fn lemma_join_no_hyphens(p: Seq<Seq<char>>)
    requires
        forall|k: int| 0 <= k < p.len() ==> no_hyphens(#[trigger] p[k]),
    ensures
        no_hyphens(join_sep(p)),
    decreases p.len(),
{
    if p.len() >= 2 {
        lemma_join_no_hyphens(p.drop_last());
        assert(p.last() == p[p.len() - 1]);
    }
}

} // verus!
