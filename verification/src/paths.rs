//! File names and extensions of `/`-separated paths, as `std::path::Path` computes them on
//! Unix, and ASCII case-insensitive comparison.

use vstd::prelude::*;

verus! {

/// The last position before `end` holding `c`, or -1.
pub open spec fn last_index_before(s: Seq<char>, c: char, end: int) -> int
    decreases end,
{
    if end <= 0 || end > s.len() {
        -1
    } else if s[end - 1] == c {
        end - 1
    } else {
        last_index_before(s, c, end - 1)
    }
}

pub proof fn lemma_last_index_before(s: Seq<char>, c: char, end: int)
    requires
        0 <= end <= s.len(),
    ensures
        -1 <= last_index_before(s, c, end) < end,
        last_index_before(s, c, end) >= 0 ==> s[last_index_before(s, c, end)] == c,
        forall|j: int| last_index_before(s, c, end) < j < end ==> s[j] != c,
    decreases end,
{
    if end > 0 && s[end - 1] != c {
        lemma_last_index_before(s, c, end - 1);
    }
}

/// The name of the last component of the path `s[..end]`: trailing separators and `.`
/// components after the first are skipped; a path ending in `..`, a lone `.` and a root
/// have none.
pub open spec fn file_name_upto(s: Seq<char>, end: int) -> Option<Seq<char>>
    decreases end,
{
    if end <= 0 || end > s.len() {
        None
    } else if s[end - 1] == '/' {
        file_name_upto(s, end - 1)
    } else {
        let start = last_index_before(s, '/', end) + 1;
        let seg = s.subrange(start, end);
        if seg == seq!['.'] {
            if start > 0 && start <= end {
                file_name_upto(s, start - 1)
            } else {
                None
            }
        } else if seg == seq!['.', '.'] {
            None
        } else {
            Some(seg)
        }
    }
}

/// The final component of a path (`Path::file_name`).
pub open spec fn file_name(s: Seq<char>) -> Option<Seq<char>> {
    file_name_upto(s, s.len() as int)
}

/// The extension of a file name: what follows its last `.`, when that `.` is not its first
/// character.
pub open spec fn name_extension(name: Seq<char>) -> Option<Seq<char>> {
    let d = last_index_before(name, '.', name.len() as int);
    if d >= 1 {
        Some(name.skip(d + 1))
    } else {
        None
    }
}

/// The extension of a path (`Path::extension`).
pub open spec fn extension(s: Seq<char>) -> Option<Seq<char>> {
    match file_name(s) {
        Some(n) => name_extension(n),
        None => None,
    }
}

pub fn last_index_before_exec(s: &Vec<char>, c: char, end: usize) -> (r: Option<usize>)
    requires
        end <= s.len(),
    ensures
        match r {
            Some(j) => last_index_before(s@, c, end as int) == j,
            None => last_index_before(s@, c, end as int) == -1,
        },
{
    let mut e = end;
    while e > 0
        invariant
            e <= end <= s.len(),
            last_index_before(s@, c, end as int) == last_index_before(s@, c, e as int),
        decreases e,
    {
        if s[e - 1] == c {
            return Some(e - 1);
        }
        e = e - 1;
    }
    None
}

pub fn subrange_chars(s: &Vec<char>, a: usize, b: usize) -> (r: Vec<char>)
    requires
        a <= b <= s.len(),
    ensures
        r@ == s@.subrange(a as int, b as int),
{
    let mut out: Vec<char> = Vec::new();
    let mut k = a;
    while k < b
        invariant
            a <= k <= b <= s.len(),
            out@ == s@.subrange(a as int, k as int),
        decreases b - k,
    {
        out.push(s[k]);
        k = k + 1;
        assert(out@ == s@.subrange(a as int, k as int));
    }
    out
}

/// The final component of a path.
pub fn file_name_chars(s: &Vec<char>) -> (r: Option<Vec<char>>)
    ensures
        match r {
            Some(n) => file_name(s@) == Some(n@),
            None => file_name(s@) is None,
        },
{
    let mut end = s.len();
    while end > 0
        invariant
            end <= s.len(),
            file_name(s@) == file_name_upto(s@, end as int),
        decreases end,
    {
        if s[end - 1] == '/' {
            end = end - 1;
        } else {
            proof {
                lemma_last_index_before(s@, '/', end as int);
            }
            let start = match last_index_before_exec(s, '/', end) {
                Some(j) => j + 1,
                None => 0,
            };
            let seg = subrange_chars(s, start, end);
            if seg.len() == 1 && seg[0] == '.' {
                assert(seg@ =~= seq!['.']);
                if start > 0 {
                    end = start - 1;
                } else {
                    return None;
                }
            } else if seg.len() == 2 && seg[0] == '.' && seg[1] == '.' {
                assert(seg@ =~= seq!['.', '.']);
                return None;
            } else {
                assert(seg@ != seq!['.']);
                assert(seg@ != seq!['.', '.']);
                return Some(seg);
            }
        }
    }
    None
}

/// The extension of a path.
pub fn extension_chars(s: &Vec<char>) -> (r: Option<Vec<char>>)
    ensures
        match r {
            Some(e) => extension(s@) == Some(e@),
            None => extension(s@) is None,
        },
{
    match file_name_chars(s) {
        None => None,
        Some(name) => {
            proof {
                lemma_last_index_before(name@, '.', name@.len() as int);
            }
            match last_index_before_exec(&name, '.', name.len()) {
                Some(d) => if d >= 1 {
                    assert(name@.skip(d + 1) == name@.subrange(d + 1, name@.len() as int));
                    Some(subrange_chars(&name, d + 1, name.len()))
                } else {
                    None
                },
                None => None,
            }
        },
    }
}

/// The code of a character with ASCII capitals lowered.
pub open spec fn ascii_lower(c: char) -> u32 {
    if 'A' <= c && c <= 'Z' {
        (c as u32 + 32) as u32
    } else {
        c as u32
    }
}

/// ASCII case-insensitive equality (`eq_ignore_ascii_case`).
pub open spec fn eq_ignore_ascii_case(a: Seq<char>, b: Seq<char>) -> bool {
    a.len() == b.len() && forall|i: int| 0 <= i < a.len() ==> ascii_lower(a[i]) == ascii_lower(
        b[i],
    )
}

fn ascii_lower_exec(c: char) -> (r: u32)
    ensures
        r == ascii_lower(c),
{
    if 'A' <= c && c <= 'Z' {
        (c as u32) + 32
    } else {
        c as u32
    }
}

pub fn eq_ignore_ascii_case_chars(a: &Vec<char>, b: &Vec<char>) -> (r: bool)
    ensures
        r == eq_ignore_ascii_case(a@, b@),
{
    if a.len() != b.len() {
        return false;
    }
    let mut i: usize = 0;
    while i < a.len()
        invariant
            a.len() == b.len(),
            i <= a.len(),
            forall|k: int| 0 <= k < i ==> ascii_lower(a@[k]) == ascii_lower(b@[k]),
        decreases a.len() - i,
    {
        if ascii_lower_exec(a[i]) != ascii_lower_exec(b[i]) {
            return false;
        }
        i = i + 1;
    }
    true
}

/// The path has an extension equal to `ext` up to ASCII case.
pub open spec fn has_extension(path: Seq<char>, ext: Seq<char>) -> bool {
    match extension(path) {
        Some(e) => eq_ignore_ascii_case(e, ext),
        None => false,
    }
}

/// Whether the path's extension equals `ext` up to ASCII case.
pub fn path_has_extension(path: &str, ext: &str) -> (r: bool)
    ensures
        r == has_extension(path@, ext@),
{
    let p = crate::text::chars_of(path);
    let e = crate::text::chars_of(ext);
    match extension_chars(&p) {
        Some(x) => eq_ignore_ascii_case_chars(&x, &e),
        None => false,
    }
}


// ---------------------------------------------------------------------------
// Components (`Path::components` on Unix).

/// A segment between separators as a component: empty segments and `.` are no component.
pub open spec fn segment_component(seg: Seq<char>) -> Seq<Seq<char>> {
    if seg.len() == 0 || seg == seq!['.'] {
        seq![]
    } else {
        seq![seg]
    }
}

/// The components of `s` named by its segments between `/` separators.
pub open spec fn normal_components(s: Seq<char>) -> Seq<Seq<char>>
    decreases s.len(),
{
    if s.len() == 0 {
        seq![]
    } else {
        let d = crate::text::index_of_from(s, '/', 0);
        proof {
            crate::text::lemma_index_of_from(s, '/', 0);
        }
        if d < 0 {
            segment_component(s)
        } else {
            segment_component(s.take(d)) + normal_components(s.skip(d + 1))
        }
    }
}

/// The components of a path, as `Path::components` yields them: `/` for a root, `.` for
/// a leading current directory of a relative path, then each segment that is neither
/// empty nor `.`. Two paths are equal (`Path`'s `==`, and so in a `HashSet`) exactly when
/// their components are.
pub open spec fn path_components(s: Seq<char>) -> Seq<Seq<char>> {
    if s.len() > 0 && s[0] == '/' {
        seq![seq!['/']] + normal_components(s)
    } else if s.len() > 0 && s[0] == '.' && (s.len() == 1 || s[1] == '/') {
        seq![seq!['.']] + normal_components(s)
    } else {
        normal_components(s)
    }
}

/// `p` lies under `base` (`Path::starts_with`): the components of `base` begin those of `p`.
pub open spec fn path_starts_with(p: Seq<char>, base: Seq<char>) -> bool {
    path_components(base).len() <= path_components(p).len() && path_components(p).take(
        path_components(base).len() as int,
    ) == path_components(base)
}

proof fn lemma_index_of_skip(s: Seq<char>, start: int)
    requires
        0 <= start <= s.len(),
    ensures
        crate::text::index_of_from(s, '/', start) < 0 ==> crate::text::index_of_from(
            s.skip(start),
            '/',
            0,
        ) < 0,
        crate::text::index_of_from(s, '/', start) >= 0 ==> crate::text::index_of_from(
            s.skip(start),
            '/',
            0,
        ) == crate::text::index_of_from(s, '/', start) - start,
{
    crate::text::lemma_index_of_from(s, '/', start);
    crate::text::lemma_index_of_from(s.skip(start), '/', 0);
    let a = crate::text::index_of_from(s, '/', start);
    let b = crate::text::index_of_from(s.skip(start), '/', 0);
    if a >= 0 {
        assert(s.skip(start)[a - start] == s[a]);
        if b >= 0 {
            assert(s[b + start] == s.skip(start)[b]);
        }
    } else if b >= 0 {
        assert(s[b + start] == s.skip(start)[b]);
    }
}

fn push_segment(comps: &mut Vec<Vec<char>>, seg: Vec<char>)
    ensures
        crate::text::views(final(comps)@) == crate::text::views(old(comps)@) + segment_component(
            seg@,
        ),
{
    let ghost before = comps@;
    if seg.len() == 0 || (seg.len() == 1 && seg[0] == '.') {
        proof {
            if seg.len() == 1 {
                assert(seg@ =~= seq!['.']);
            }
        }
        assert(crate::text::views(comps@) =~= crate::text::views(before) + segment_component(seg@));
    } else {
        assert(seg@ != seq!['.']);
        let ghost sv = seg@;
        comps.push(seg);
        assert(crate::text::views(comps@) =~= crate::text::views(before) + segment_component(sv));
    }
}

/// The components of a path.
pub fn path_components_chars(s: &Vec<char>) -> (r: Vec<Vec<char>>)
    ensures
        crate::text::views(r@) == path_components(s@),
{
    let mut comps: Vec<Vec<char>> = Vec::new();
    if s.len() > 0 && s[0] == '/' {
        let mut root: Vec<char> = Vec::new();
        root.push('/');
        comps.push(root);
    } else if s.len() > 0 && s[0] == '.' && (s.len() == 1 || s[1] == '/') {
        let mut cur: Vec<char> = Vec::new();
        cur.push('.');
        comps.push(cur);
    }
    let ghost head = crate::text::views(comps@);
    assert(path_components(s@) == head + normal_components(s@));
    let mut start: usize = 0;
    assert(s@.skip(0) == s@);
    while start < s.len()
        invariant
            start <= s.len(),
            path_components(s@) == crate::text::views(comps@) + normal_components(
                s@.skip(start as int),
            ),
        decreases s.len() - start,
    {
        proof {
            lemma_index_of_skip(s@, start as int);
            crate::text::lemma_index_of_from(s@, '/', start as int);
        }
        let ghost rest = s@.skip(start as int);
        match crate::text::index_of_from_exec(s, '/', start) {
            Some(d) => {
                let seg = subrange_chars(s, start, d);
                assert(seg@ == rest.take(d - start));
                assert(rest.skip(d - start + 1) == s@.skip(d + 1));
                push_segment(&mut comps, seg);
                start = d + 1;
            },
            None => {
                let seg = subrange_chars(s, start, s.len());
                assert(seg@ == rest);
                push_segment(&mut comps, seg);
                start = s.len();
                assert(s@.skip(start as int).len() == 0);
            },
        }
    }
    assert(s@.skip(start as int).len() == 0);
    comps
}

/// Whether two component lists are equal (exec).
pub fn same_components(a: &Vec<Vec<char>>, b: &Vec<Vec<char>>) -> (r: bool)
    ensures
        r == (crate::text::views(a@) == crate::text::views(b@)),
{
    if a.len() != b.len() {
        assert(crate::text::views(a@).len() != crate::text::views(b@).len());
        return false;
    }
    let mut i: usize = 0;
    while i < a.len()
        invariant
            a.len() == b.len(),
            i <= a.len(),
            forall|k: int| 0 <= k < i ==> a@[k]@ == b@[k]@,
        decreases a.len() - i,
    {
        if !crate::text::same_chars(&a[i], &b[i]) {
            assert(crate::text::views(a@)[i as int] != crate::text::views(b@)[i as int]);
            return false;
        }
        i = i + 1;
    }
    assert(crate::text::views(a@) =~= crate::text::views(b@));
    true
}

/// Whether `p` lies under `base` (exec).
pub fn path_starts_with_chars(p: &Vec<char>, base: &Vec<char>) -> (r: bool)
    ensures
        r == path_starts_with(p@, base@),
{
    let pc = path_components_chars(p);
    let bc = path_components_chars(base);
    if bc.len() > pc.len() {
        assert(crate::text::views(bc@).len() > crate::text::views(pc@).len());
        return false;
    }
    let mut i: usize = 0;
    while i < bc.len()
        invariant
            bc.len() <= pc.len(),
            i <= bc.len(),
            crate::text::views(pc@) == path_components(p@),
            crate::text::views(bc@) == path_components(base@),
            forall|k: int| 0 <= k < i ==> pc@[k]@ == bc@[k]@,
        decreases bc.len() - i,
    {
        if !crate::text::same_chars(&pc[i], &bc[i]) {
            let ghost x = crate::text::views(pc@).take(bc.len() as int);
            let ghost y = crate::text::views(bc@);
            assert(x[i as int] != y[i as int]);
            assert(x != y);
            return false;
        }
        i = i + 1;
    }
    assert(crate::text::views(pc@).take(bc.len() as int) =~= crate::text::views(bc@));
    true
}

/// A separator at the end of a non-empty path changes nothing: `a/b/` is the path `a/b`.
pub proof fn lemma_trailing_separator(p: Seq<char>)
    requires
        p.len() > 0,
    ensures
        path_components(p.push('/')) == path_components(p),
{
    lemma_normal_components_trailing(p);
    assert(p.push('/')[0] == p[0]);
    if p.len() == 1 {
        assert(p.push('/')[1] == '/');
    } else {
        assert(p.push('/')[1] == p[1]);
    }
}

proof fn lemma_normal_components_trailing(p: Seq<char>)
    ensures
        normal_components(p.push('/')) == normal_components(p),
    decreases p.len(),
{
    let q = p.push('/');
    crate::text::lemma_index_of_from(q, '/', 0);
    crate::text::lemma_index_of_from(p, '/', 0);
    let d = crate::text::index_of_from(q, '/', 0);
    let e = crate::text::index_of_from(p, '/', 0);
    if e < 0 {
        assert(q[p.len() as int] == '/');
        assert(d == p.len()) by {
            assert forall|j: int| 0 <= j < p.len() implies q[j] != '/' by {
                assert(q[j] == p[j]);
            }
        }
        assert(q.take(d) == p);
        assert(q.skip(d + 1).len() == 0);
        assert(normal_components(q.skip(d + 1)) == Seq::<Seq<char>>::empty());
        if p.len() == 0 {
        }
        assert(normal_components(q) =~= segment_component(p));
    } else {
        assert(q[e] == p[e]);
        assert(d == e) by {
            assert forall|j: int| 0 <= j < e implies q[j] != '/' by {
                assert(q[j] == p[j]);
            }
        }
        assert(q.take(d) == p.take(e));
        assert(q.skip(d + 1) == p.skip(e + 1).push('/'));
        lemma_normal_components_trailing(p.skip(e + 1));
    }
}

} // verus!
