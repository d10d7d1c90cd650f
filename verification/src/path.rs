//! A model of slash-separated paths and the few path operations the workflow
//! needs: final component, parent directory, stem/extension split and joining
//! a file name onto a directory.
//!
//! Paths compare by their normalized components (empty segments and `.`
//! segments after the first are ignored), so `trip/` and `trip` name the same
//! directory.

use vstd::prelude::*;

verus! {

/// Index of the last `/` in `s`, or -1 when there is none.
pub open spec fn last_sep(s: Seq<char>) -> int
    decreases s.len(),
{
    if s.len() == 0 {
        -1
    } else if s.last() == '/' {
        s.len() - 1
    } else {
        last_sep(s.drop_last())
    }
}

pub proof fn lemma_last_sep(s: Seq<char>)
    ensures
        -1 <= last_sep(s) < s.len(),
        last_sep(s) >= 0 ==> s[last_sep(s)] == '/',
        forall|j: int| last_sep(s) < j < s.len() ==> s[j] != '/',
    decreases s.len(),
{
    if s.len() > 0 && s.last() != '/' {
        lemma_last_sep(s.drop_last());
        assert forall|j: int| last_sep(s) < j < s.len() implies s[j] != '/' by {
            if j < s.len() - 1 {
                assert(s[j] == s.drop_last()[j]);
            }
        }
    }
}

pub open spec fn dot() -> Seq<char> {
    seq!['.']
}

pub open spec fn dot_dot() -> Seq<char> {
    seq!['.', '.']
}

/// The normalized components of a path, root excluded.
pub open spec fn comps(s: Seq<char>) -> Seq<Seq<char>>
    decreases s.len(),
{
    if s.len() == 0 {
        seq![]
    } else {
        let k = last_sep(s);
        let seg = s.subrange(k + 1, s.len() as int);
        if k < 0 {
            seq![seg]
        } else {
            proof {
                lemma_last_sep(s);
            }
            let rest = comps(s.subrange(0, k));
            if seg.len() == 0 || seg == dot() {
                rest
            } else {
                rest.push(seg)
            }
        }
    }
}

pub open spec fn has_root(s: Seq<char>) -> bool {
    s.len() > 0 && s[0] == '/'
}

/// Two paths name the same location.
pub open spec fn same_path(a: Seq<char>, b: Seq<char>) -> bool {
    has_root(a) == has_root(b) && comps(a) == comps(b)
}

pub open spec fn is_normal(c: Seq<char>) -> bool {
    c.len() > 0 && c != dot() && c != dot_dot()
}

/// The final component of `s` when it is an ordinary name.
pub open spec fn file_name(s: Seq<char>) -> Option<Seq<char>> {
    let c = comps(s);
    if c.len() > 0 && is_normal(c.last()) {
        Some(c.last())
    } else {
        None
    }
}

/// `dir` is the parent directory of `s`.
pub open spec fn is_parent_of(dir: Seq<char>, s: Seq<char>) -> bool {
    comps(s).len() > 0 && has_root(dir) == has_root(s) && comps(dir) == comps(s).drop_last()
}

/// `child` lies at or below `dir`: the components of `dir`, the root among
/// them, begin those of `child`. Every path lies below the empty path.
pub open spec fn same_or_below(child: Seq<char>, dir: Seq<char>) -> bool {
    ||| !has_root(dir) && comps(dir).len() == 0
    ||| has_root(child) == has_root(dir) && comps(dir).len() <= comps(child).len()
        && comps(child).subrange(0, comps(dir).len() as int) == comps(dir)
}

/// Index of the last `.` in a name, or -1.
pub open spec fn last_dot(s: Seq<char>) -> int
    decreases s.len(),
{
    if s.len() == 0 {
        -1
    } else if s.last() == '.' {
        s.len() - 1
    } else {
        last_dot(s.drop_last())
    }
}

pub proof fn lemma_last_dot(s: Seq<char>)
    ensures
        -1 <= last_dot(s) < s.len(),
        last_dot(s) >= 0 ==> s[last_dot(s)] == '.',
        forall|j: int| last_dot(s) < j < s.len() ==> s[j] != '.',
    decreases s.len(),
{
    if s.len() > 0 && s.last() != '.' {
        lemma_last_dot(s.drop_last());
        assert forall|j: int| last_dot(s) < j < s.len() implies s[j] != '.' by {
            if j < s.len() - 1 {
                assert(s[j] == s.drop_last()[j]);
            }
        }
    }
}

/// The stem of a file name: everything before the final `.`, unless that dot
/// leads the name or is missing.
pub open spec fn name_stem(name: Seq<char>) -> Seq<char> {
    let d = last_dot(name);
    if name == dot_dot() || d <= 0 {
        name
    } else {
        name.subrange(0, d)
    }
}

/// The extension of a file name: everything after the final `.`, when the name
/// has a dot that does not lead it.
pub open spec fn name_extension(name: Seq<char>) -> Option<Seq<char>> {
    let d = last_dot(name);
    if name == dot_dot() || d <= 0 {
        None
    } else {
        Some(name.subrange(d + 1, name.len() as int))
    }
}

pub open spec fn file_stem(s: Seq<char>) -> Option<Seq<char>> {
    match file_name(s) {
        Some(n) => Some(name_stem(n)),
        None => None,
    }
}

pub open spec fn extension(s: Seq<char>) -> Option<Seq<char>> {
    match file_name(s) {
        Some(n) => name_extension(n),
        None => None,
    }
}

/// Appending a relative name onto a directory path.
pub open spec fn join(base: Seq<char>, name: Seq<char>) -> Seq<char> {
    if base.len() == 0 {
        name
    } else if base.last() == '/' {
        base + name
    } else {
        base + seq!['/'] + name
    }
}

pub open spec fn no_sep(s: Seq<char>) -> bool {
    forall|j: int| 0 <= j < s.len() ==> s[j] != '/'
}

fn find_last(p: &[char], end: usize, c: char) -> (k: Option<usize>)
    requires
        end <= p@.len(),
    ensures
        match k {
            None => forall|j: int| 0 <= j < end ==> p@[j] != c,
            Some(k) => k < end && p@[k as int] == c && forall|j: int| k < j < end ==> p@[j] != c,
        },
{
    let mut i = end;
    while i > 0
        invariant
            i <= end <= p@.len(),
            forall|j: int| i <= j < end ==> p@[j] != c,
        decreases i,
    {
        if p[i - 1] == c {
            return Some(i - 1);
        }
        i -= 1;
    }
    None
}

pub proof fn lemma_last_sep_is(s: Seq<char>, k: int)
    requires
        -1 <= k < s.len(),
        k >= 0 ==> s[k] == '/',
        forall|j: int| k < j < s.len() ==> s[j] != '/',
    ensures
        last_sep(s) == k,
{
    lemma_last_sep(s);
    let l = last_sep(s);
    if l > k {
        assert(s[l] != '/');
    } else if l < k {
        assert(s[k] != '/');
    }
}

proof fn lemma_last_dot_is(s: Seq<char>, k: int)
    requires
        -1 <= k < s.len(),
        k >= 0 ==> s[k] == '.',
        forall|j: int| k < j < s.len() ==> s[j] != '.',
    ensures
        last_dot(s) == k,
{
    lemma_last_dot(s);
    let l = last_dot(s);
    if l > k {
        assert(s[l] != '.');
    } else if l < k {
        assert(s[k] != '.');
    }
}

/// `s` without trailing separators and trailing `.` segments.
pub open spec fn strip_tail(s: Seq<char>) -> Seq<char>
    decreases s.len(),
{
    let k = last_sep(s);
    let seg = s.subrange(k + 1, s.len() as int);
    if k >= 0 && (seg.len() == 0 || seg == dot()) {
        proof {
            lemma_last_sep(s);
        }
        strip_tail(s.subrange(0, k))
    } else {
        s
    }
}

/// The text of `p`'s parent directory, as `Path::parent` gives it.
pub open spec fn parent_text(p: Seq<char>) -> Option<Seq<char>> {
    let t = strip_tail(p);
    let k = last_sep(t);
    if t.len() == 0 {
        None
    } else if k < 0 {
        Some(seq![])
    } else if k == 0 {
        Some(seq!['/'])
    } else {
        Some(t.subrange(0, k))
    }
}

/// Location of the last component of `p`: the separator before it (if any) and
/// the character range it spans.
#[derive(Clone, Copy)]
pub struct LastComponent {
    pub sep: Option<usize>,
    pub start: usize,
    pub end: usize,
}

pub open spec fn last_component_ok(p: Seq<char>, r: LastComponent) -> bool {
    let t = p.subrange(0, r.end as int);
    let seg = p.subrange(r.start as int, r.end as int);
    &&& r.start < r.end <= p.len()
    &&& strip_tail(p) == t
    &&& comps(t) == comps(p)
    &&& seg.len() > 0
    &&& no_sep(seg)
    &&& comps(p).len() > 0
    &&& comps(p).last() == seg
    &&& match r.sep {
        Some(k) => k + 1 == r.start && p[k as int] == '/' && seg != dot()
            && comps(p) == comps(p.subrange(0, k as int)).push(seg),
        None => r.start == 0 && comps(p) == seq![seg],
    }
}

/// Locates the last component of the prefix `p[..limit]`.
pub fn last_component(p: &[char], limit: usize) -> (res: Option<LastComponent>)
    requires
        limit <= p@.len(),
    ensures
        match res {
            None => comps(p@.subrange(0, limit as int)).len() == 0
                && strip_tail(p@.subrange(0, limit as int)).len() == 0,
            Some(r) => r.end <= limit && last_component_ok(p@.subrange(0, limit as int), r),
        },
{
    let ghost q = p@.subrange(0, limit as int);
    let mut end = limit;
    assert(q.subrange(0, end as int) =~= q);
    loop
        invariant
            end <= limit <= p@.len(),
            q == p@.subrange(0, limit as int),
            comps(q.subrange(0, end as int)) == comps(q),
            strip_tail(q.subrange(0, end as int)) == strip_tail(q),
        decreases end,
    {
        let ghost t = q.subrange(0, end as int);
        if end == 0 {
            assert(t.len() == 0);
            return None;
        }
        let k = find_last(p, end, '/');
        proof {
            match k {
                None => lemma_last_sep_is(t, -1),
                Some(k) => lemma_last_sep_is(t, k as int),
            }
        }
        match k {
            None => {
                assert(t.subrange(0, end as int) =~= t);
                assert(q.subrange(0, end as int) =~= t);
                return Some(LastComponent { sep: None, start: 0, end });
            }
            Some(k) => {
                let seg_len = end - (k + 1);
                let is_dot = seg_len == 1 && p[k + 1] == '.';
                let ghost seg = t.subrange(k + 1, end as int);
                assert(t.subrange(0, k as int) =~= q.subrange(0, k as int));
                assert(seg =~= q.subrange(k + 1, end as int));
                if seg_len == 0 || is_dot {
                    assert(seg.len() == 0 || seg =~= dot());
                    end = k;
                } else {
                    assert(seg != dot()) by {
                        if seg == dot() {
                            assert(seg[0] == q[k + 1]);
                        }
                    }
                    proof {
                        assert forall|j: int| 0 <= j < seg.len() implies seg[j] != '/' by {
                            assert(seg[j] == t[k + 1 + j]);
                        }
                    }
                    return Some(LastComponent { sep: Some(k), start: k + 1, end });
                }
            }
        }
    }
}

/// The character sequences held by a vector of strings.
pub open spec fn views(v: Seq<Vec<char>>) -> Seq<Seq<char>> {
    Seq::new(v.len(), |i: int| v[i]@)
}

/// The characters `p[start..end]`.
pub fn copy_range(p: &[char], start: usize, end: usize) -> (res: Vec<char>)
    requires
        start <= end <= p@.len(),
    ensures
        res@ == p@.subrange(start as int, end as int),
{
    let mut out: Vec<char> = Vec::new();
    let mut i = start;
    while i < end
        invariant
            start <= i <= end <= p@.len(),
            out@ == p@.subrange(start as int, i as int),
        decreases end - i,
    {
        out.push(p[i]);
        i += 1;
        assert(out@ =~= p@.subrange(start as int, i as int));
    }
    out
}

pub fn chars_equal(a: &[char], b: &[char]) -> (res: bool)
    ensures
        res == (a@ == b@),
{
    if a.len() != b.len() {
        return false;
    }
    let mut i: usize = 0;
    while i < a.len()
        invariant
            a@.len() == b@.len(),
            i <= a@.len(),
            forall|j: int| 0 <= j < i ==> a@[j] == b@[j],
        decreases a@.len() - i,
    {
        if a[i] != b[i] {
            return false;
        }
        i += 1;
    }
    assert(a@ =~= b@);
    true
}

fn is_normal_name(seg: &[char]) -> (res: bool)
    ensures
        res == is_normal(seg@),
{
    if seg.len() == 0 {
        return false;
    }
    if seg.len() == 1 && seg[0] == '.' {
        assert(seg@ =~= dot());
        return false;
    }
    if seg.len() == 2 && seg[0] == '.' && seg[1] == '.' {
        assert(seg@ =~= dot_dot());
        return false;
    }
    assert(seg@ != dot() && seg@ != dot_dot()) by {
        if seg@ == dot() {
            assert(seg@[0] == '.');
        }
        if seg@ == dot_dot() {
            assert(seg@[0] == '.' && seg@[1] == '.');
        }
    }
    true
}

/// The final component of `p` when it is an ordinary name.
pub fn file_name_of(p: &[char]) -> (res: Option<Vec<char>>)
    ensures
        match res {
            None => file_name(p@) is None,
            Some(n) => file_name(p@) == Some(n@),
        },
{
    assert(p@.subrange(0, p@.len() as int) =~= p@);
    match last_component(p, p.len()) {
        None => None,
        Some(r) => {
            let seg = copy_range(p, r.start, r.end);
            if is_normal_name(&seg) {
                Some(seg)
            } else {
                None
            }
        }
    }
}

/// Splits a file name into its stem and extension.
pub fn split_name(name: &[char]) -> (res: (Vec<char>, Option<Vec<char>>))
    ensures
        res.0@ == name_stem(name@),
        match res.1 {
            None => name_extension(name@) is None,
            Some(e) => name_extension(name@) == Some(e@),
        },
{
    let whole = copy_range(name, 0, name.len());
    assert(name@.subrange(0, name@.len() as int) =~= name@);
    if name.len() == 2 && name[0] == '.' && name[1] == '.' {
        assert(name@ =~= dot_dot());
        return (whole, None);
    }
    assert(name@ != dot_dot()) by {
        if name@ == dot_dot() {
            assert(name@[0] == '.' && name@[1] == '.');
        }
    }
    let d = find_last(name, name.len(), '.');
    proof {
        match d {
            None => lemma_last_dot_is(name@, -1),
            Some(d) => lemma_last_dot_is(name@, d as int),
        }
    }
    match d {
        None => (whole, None),
        Some(d) => {
            if d == 0 {
                (whole, None)
            } else {
                (copy_range(name, 0, d), Some(copy_range(name, d + 1, name.len())))
            }
        }
    }
}

/// The parent directory of `p`, or `None` when `p` has no components.
pub fn parent_of(p: &[char]) -> (res: Option<Vec<char>>)
    ensures
        match res {
            None => comps(p@).len() == 0 && parent_text(p@) is None,
            Some(d) => is_parent_of(d@, p@) && parent_text(p@) == Some(d@),
        },
{
    assert(p@.subrange(0, p@.len() as int) =~= p@);
    let lc = last_component(p, p.len());
    proof {
        if let Some(r) = lc {
            let t = p@.subrange(0, r.end as int);
            match r.sep {
                None => {
                    let seg = p@.subrange(r.start as int, r.end as int);
                    assert forall|j: int| -1 < j < t.len() implies t[j] != '/' by {
                        assert(t[j] == seg[j]);
                    }
                    crate::path::lemma_last_sep_is(t, -1);
                },
                Some(k) => {
                    let seg = p@.subrange(r.start as int, r.end as int);
                    assert forall|j: int| k < j < t.len() implies t[j] != '/' by {
                        assert(t[j] == seg[j - k - 1]);
                    }
                    crate::path::lemma_last_sep_is(t, k as int);
                    assert(t.subrange(0, k as int) =~= p@.subrange(0, k as int));
                },
            }
        }
    }
    match lc {
        None => None,
        Some(r) => {
            match r.sep {
                None => {
                    let d: Vec<char> = Vec::new();
                    assert(comps(d@) =~= seq![]);
                    assert(comps(p@).drop_last() =~= seq![]);
                    assert(p@[0] == p@.subrange(r.start as int, r.end as int)[0]);
                    Some(d)
                },
                Some(k) => {
                    if k == 0 {
                        let d = copy_range(p, 0, 1);
                        let ghost e = p@.subrange(0, 0);
                        assert(e.len() == 0);
                        assert(comps(e) =~= seq![]);
                        proof { lemma_root_comps(); }
                        assert(d@ =~= seq!['/']);
                        assert(comps(p@).drop_last() =~= comps(e));
                        Some(d)
                    } else {
                        let d = copy_range(p, 0, k);
                        assert(comps(p@).drop_last() =~= comps(d@));
                        Some(d)
                    }
                },
            }
        },
    }
}

proof fn lemma_root_comps()
    ensures
        comps(seq!['/']) =~= seq![],
{
    let s = seq!['/'];
    lemma_last_sep_is(s, 0);
    assert(s.subrange(0, 0) =~= Seq::<char>::empty());
    assert(comps(Seq::<char>::empty()) =~= seq![]);
    assert(s.subrange(1, 1).len() == 0);
    assert(s.subrange(1, 1).len() == 0);
}

/// The normalized components of `p[..limit]`.
pub fn components_upto(p: &[char], limit: usize) -> (res: Vec<Vec<char>>)
    requires
        limit <= p@.len(),
    ensures
        views(res@) == comps(p@.subrange(0, limit as int)),
    decreases limit,
{
    match last_component(p, limit) {
        None => {
            let v: Vec<Vec<char>> = Vec::new();
            assert(views(v@) =~= seq![]);
            v
        },
        Some(r) => {
            let ghost q = p@.subrange(0, limit as int);
            let seg = copy_range(p, r.start, r.end);
            assert(seg@ =~= q.subrange(r.start as int, r.end as int));
            match r.sep {
                None => {
                    let mut v: Vec<Vec<char>> = Vec::new();
                    v.push(seg);
                    assert(views(v@) =~= seq![seg@]);
                    v
                },
                Some(k) => {
                    let mut v = components_upto(p, k);
                    assert(q.subrange(0, k as int) =~= p@.subrange(0, k as int));
                    let ghost before = views(v@);
                    v.push(seg);
                    assert(views(v@) =~= before.push(seg@));
                    v
                },
            }
        },
    }
}

pub fn components(p: &[char]) -> (res: Vec<Vec<char>>)
    ensures
        views(res@) == comps(p@),
{
    assert(p@.subrange(0, p@.len() as int) =~= p@);
    components_upto(p, p.len())
}

fn components_equal(a: &Vec<Vec<char>>, b: &Vec<Vec<char>>, n: usize) -> (res: bool)
    requires
        n <= a@.len(),
        n <= b@.len(),
    ensures
        res == (views(a@).subrange(0, n as int) == views(b@).subrange(0, n as int)),
{
    let mut i: usize = 0;
    while i < n
        invariant
            i <= n <= a@.len(),
            n <= b@.len(),
            forall|j: int| 0 <= j < i ==> views(a@)[j] == views(b@)[j],
        decreases n - i,
    {
        if !chars_equal(&a[i], &b[i]) {
            assert(views(a@).subrange(0, n as int)[i as int] != views(b@).subrange(0, n as int)[i as int]);
            return false;
        }
        i += 1;
    }
    assert(views(a@).subrange(0, n as int) =~= views(b@).subrange(0, n as int));
    true
}

fn rooted(p: &[char]) -> (res: bool)
    ensures
        res == has_root(p@),
{
    p.len() > 0 && p[0] == '/'
}

/// Whether `a` and `b` name the same location.
pub fn same_path_exec(a: &[char], b: &[char]) -> (res: bool)
    ensures
        res == same_path(a@, b@),
{
    let ca = components(a);
    let cb = components(b);
    assert(views(ca@).len() == ca@.len() && views(cb@).len() == cb@.len());
    if rooted(a) != rooted(b) || ca.len() != cb.len() {
        return false;
    }
    let r = components_equal(&ca, &cb, ca.len());
    assert(views(ca@).subrange(0, ca@.len() as int) =~= views(ca@));
    assert(views(cb@).subrange(0, cb@.len() as int) =~= views(cb@));
    r
}

/// Whether `child` lies at or below `dir`.
pub fn same_or_below_exec(child: &[char], dir: &[char]) -> (res: bool)
    ensures
        res == same_or_below(child@, dir@),
{
    let cc = components(child);
    let cd = components(dir);
    if !rooted(dir) && cd.len() == 0 {
        return true;
    }
    if rooted(child) != rooted(dir) || cd.len() > cc.len() {
        return false;
    }
    let r = components_equal(&cc, &cd, cd.len());
    assert(views(cd@).subrange(0, cd@.len() as int) =~= views(cd@));
    r
}

/// Appends a relative name onto a directory path.
pub fn join_name(base: &[char], name: &[char]) -> (res: Vec<char>)
    ensures
        res@ == join(base@, name@),
{
    let mut out = copy_range(base, 0, base.len());
    assert(base@.subrange(0, base@.len() as int) =~= base@);
    if base.len() > 0 && base[base.len() - 1] != '/' {
        out.push('/');
    }
    let mut i: usize = 0;
    let ghost pre = out@;
    while i < name.len()
        invariant
            i <= name@.len(),
            out@ == pre + name@.subrange(0, i as int),
        decreases name@.len() - i,
    {
        out.push(name[i]);
        i += 1;
        assert(out@ =~= pre + name@.subrange(0, i as int));
    }
    assert(name@.subrange(0, name@.len() as int) =~= name@);
    assert(base@.len() > 0 ==> base@.last() == base@[base@.len() - 1]);
    out
}


/// `a` followed by `b`.
pub fn concat(a: &[char], b: &[char]) -> (res: Vec<char>)
    ensures
        res@ == a@ + b@,
{
    let mut out = copy_range(a, 0, a.len());
    assert(a@.subrange(0, a@.len() as int) =~= a@);
    let mut i: usize = 0;
    while i < b.len()
        invariant
            i <= b@.len(),
            out@ == a@ + b@.subrange(0, i as int),
        decreases b@.len() - i,
    {
        out.push(b[i]);
        i += 1;
        assert(out@ =~= a@ + b@.subrange(0, i as int));
    }
    assert(b@.subrange(0, b@.len() as int) =~= b@);
    out
}

/// `p` with the extension of its file name replaced by `ext`, as
/// `Path::with_extension` gives it: the text is cut right after the file
/// stem, then `.ext` is appended unless `ext` is empty. A path without a file
/// name is left as it is.
pub open spec fn with_extension(p: Seq<char>, ext: Seq<char>) -> Seq<char> {
    match file_name(p) {
        None => p,
        Some(n) => {
            let t = strip_tail(p);
            let base = t.subrange(0, t.len() - n.len()) + name_stem(n);
            if ext.len() == 0 {
                base
            } else {
                base + seq!['.'] + ext
            }
        },
    }
}

pub fn replace_extension(p: &[char], ext: &[char]) -> (res: Vec<char>)
    ensures
        res@ == with_extension(p@, ext@),
{
    assert(p@.subrange(0, p@.len() as int) =~= p@);
    match last_component(p, p.len()) {
        None => copy_range(p, 0, p.len()),
        Some(r) => {
            let seg = copy_range(p, r.start, r.end);
            if !is_normal_name(&seg) {
                return copy_range(p, 0, p.len());
            }
            assert(file_name(p@) == Some(seg@));
            let ghost t = strip_tail(p@);
            assert(t.subrange(0, t.len() - seg@.len()) =~= p@.subrange(0, r.start as int));
            let (stem, _) = split_name(&seg);
            let base = concat(&copy_range(p, 0, r.start), &stem);
            if ext.len() == 0 {
                base
            } else {
                let mut dotted = base;
                dotted.push('.');
                concat(&dotted, ext)
            }
        },
    }
}

/// What a search for a free name does after asking whether its probe number
/// `n` is taken.
#[derive(PartialEq, Eq, Structural, Clone, Copy, Debug)]
pub enum ProbeStep {
    /// The probe is free: it is the name to use.
    Take,
    /// The probe is taken: go on with this probe number.
    Next(u32),
    /// Every 32-bit probe number has been tried.
    GiveUp,
}

/// The search for a free name, one answer at a time: a free probe is taken,
/// a taken one moves on to the next number until the numbers run out.
pub fn probe_step(n: u32, taken: bool) -> (res: ProbeStep)
    ensures
        !taken ==> res == ProbeStep::Take,
        taken && n < u32::MAX ==> res == ProbeStep::Next((n + 1) as u32),
        taken && n == u32::MAX ==> res == ProbeStep::GiveUp,
{
    if !taken {
        ProbeStep::Take
    } else if n == u32::MAX {
        ProbeStep::GiveUp
    } else {
        ProbeStep::Next(n + 1)
    }
}

/// Whether something exists at `path`.
///
/// Calls `std::path::Path::exists`. The answer depends on the file system at
/// the moment of the call, so nothing is stated about it.
#[verifier::external_body]
pub(crate) fn path_exists(path: &str) -> bool {
    std::path::Path::new(path).exists()
}

} // verus!
