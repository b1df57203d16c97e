//! Unix path semantics over plain strings: the component model that
//! `std::path::Path` uses (`/` separators, a leading root, a leading `.`
//! only for relative paths, `..` kept, empty and interior `.` segments
//! dropped), and the joins, file names and extensions built on it.
use vstd::prelude::*;
use crate::text::{chars_of, concat, concat3, starts_with, str_eq, string_of, string_of_all};

verus! {

/// One path component; `S` is `String` in executable code and
/// `Seq<char>` in specifications.
pub enum Comp<S> {
    RootDir,
    CurDir,
    ParentDir,
    Normal(S),
}

pub open spec fn comp_view(c: Comp<String>) -> Comp<Seq<char>> {
    match c {
        Comp::RootDir => Comp::RootDir,
        Comp::CurDir => Comp::CurDir,
        Comp::ParentDir => Comp::ParentDir,
        Comp::Normal(s) => Comp::Normal(s@),
    }
}

pub open spec fn comps_view(v: Seq<Comp<String>>) -> Seq<Comp<Seq<char>>> {
    v.map_values(|c: Comp<String>| comp_view(c))
}

/// The pieces of `s` between `/` separators (always at least one).
pub open spec fn split_slash(s: Seq<char>) -> Seq<Seq<char>>
    decreases s.len(),
{
    if s.len() == 0 {
        seq![Seq::<char>::empty()]
    } else {
        let p = split_slash(s.drop_last());
        if s.last() == '/' {
            p.push(Seq::<char>::empty())
        } else {
            p.update(p.len() - 1, p.last().push(s.last()))
        }
    }
}

pub open spec fn is_absolute(s: Seq<char>) -> bool {
    s.len() > 0 && s[0] == '/'
}

/// The component one piece stands for; `first_relative` is whether it is
/// the very first piece of a relative path (the only place `.` counts).
pub open spec fn seg_comp(seg: Seq<char>, first_relative: bool) -> Option<Comp<Seq<char>>> {
    if seg.len() == 0 {
        None
    } else if seg == seq!['.'] {
        if first_relative {
            Some(Comp::CurDir)
        } else {
            None
        }
    } else if seg == seq!['.', '.'] {
        Some(Comp::ParentDir)
    } else {
        Some(Comp::Normal(seg))
    }
}

pub open spec fn comps_of_segs(segs: Seq<Seq<char>>, abs: bool) -> Seq<Comp<Seq<char>>>
    decreases segs.len(),
{
    if segs.len() == 0 {
        Seq::empty()
    } else {
        let prev = comps_of_segs(segs.drop_last(), abs);
        match seg_comp(segs.last(), segs.len() == 1 && !abs) {
            Some(c) => prev.push(c),
            None => prev,
        }
    }
}

/// `Path::components` of `s`.
pub open spec fn components(s: Seq<char>) -> Seq<Comp<Seq<char>>> {
    let root: Seq<Comp<Seq<char>>> = if is_absolute(s) {
        seq![Comp::RootDir]
    } else {
        Seq::empty()
    };
    root + comps_of_segs(split_slash(s), is_absolute(s))
}

/// Two paths are equal as `Path`s: same components.
pub open spec fn same_path(a: Seq<char>, b: Seq<char>) -> bool {
    components(a) == components(b)
}

/// `Path::file_name`: the last component, if it is a plain name.
pub open spec fn file_name(s: Seq<char>) -> Option<Seq<char>> {
    let c = components(s);
    if c.len() > 0 && c.last() is Normal {
        Some(c.last()->Normal_0)
    } else {
        None
    }
}

/// Index of the last `'.'` in `s`, or -1.
pub open spec fn last_dot(s: Seq<char>) -> int
    decreases s.len(),
{
    if s.len() == 0 {
        -1
    } else if s.last() == '.' {
        s.len() - 1
    } else {
        last_dot(s.drop_last())
    }
}

/// The extension of one file name: text after the last `.`, unless that
/// dot is the first character (a dot file) or there is none.
pub open spec fn name_extension(name: Seq<char>) -> Option<Seq<char>> {
    let k = last_dot(name);
    if k <= 0 {
        None
    } else {
        Some(name.subrange(k + 1, name.len() as int))
    }
}

/// `Path::extension`.
pub open spec fn extension(s: Seq<char>) -> Option<Seq<char>> {
    match file_name(s) {
        Some(n) => name_extension(n),
        None => None,
    }
}

/// `PathBuf::join` (Unix): an absolute `rel` replaces `base`; otherwise a
/// separator is inserted unless `base` is empty or already ends in one.
pub open spec fn join(base: Seq<char>, rel: Seq<char>) -> Seq<char> {
    if is_absolute(rel) {
        rel
    } else if base.len() == 0 || base.last() == '/' {
        base + rel
    } else {
        base + seq!['/'] + rel
    }
}

pub open spec fn comp_text(c: Comp<Seq<char>>) -> Seq<char> {
    match c {
        Comp::RootDir => seq!['/'],
        Comp::CurDir => seq!['.'],
        Comp::ParentDir => seq!['.', '.'],
        Comp::Normal(n) => n,
    }
}

/// The path built by pushing each component in turn onto `base`.
pub open spec fn push_all(base: Seq<char>, c: Seq<Comp<Seq<char>>>) -> Seq<char>
    decreases c.len(),
{
    if c.len() == 0 {
        base
    } else {
        join(push_all(base, c.drop_last()), comp_text(c.last()))
    }
}

/// `Path::strip_prefix`: the components of `path` after those of `base`,
/// when `base`'s components are a prefix of `path`'s.
pub open spec fn strip_prefix(path: Seq<char>, base: Seq<char>) -> Option<Seq<Comp<Seq<char>>>> {
    let pc = components(path);
    let bc = components(base);
    if bc.len() <= pc.len() && pc.subrange(0, bc.len() as int) == bc {
        Some(pc.subrange(bc.len() as int, pc.len() as int))
    } else {
        None
    }
}

/// No piece between separators holds a separator.
pub proof fn lemma_split_no_slash(s: Seq<char>)
    ensures
        forall|k: int, i: int|
            0 <= k < split_slash(s).len() && 0 <= i < split_slash(s)[k].len() ==> (#[trigger] split_slash(s)[k][i])
                != '/',
    decreases s.len(),
{
    if s.len() > 0 {
        lemma_split_no_slash(s.drop_last());
        let p = split_slash(s.drop_last());
        lemma_split_len(s.drop_last());
        if s.last() != '/' {
            let q = p.update(p.len() - 1, p.last().push(s.last()));
            assert forall|k: int, i: int| 0 <= k < q.len() && 0 <= i < q[k].len() implies (#[trigger] q[k][i]) != '/' by {
                if k == p.len() - 1 && i == p.last().len() {
                } else if k == p.len() - 1 {
                    assert(q[k][i] == p[k][i]);
                }
            }
        } else {
            let q = p.push(Seq::<char>::empty());
            assert forall|k: int, i: int| 0 <= k < q.len() && 0 <= i < q[k].len() implies (#[trigger] q[k][i]) != '/' by {
                assert(k < p.len());
                assert(q[k] == p[k]);
            }
        }
    }
}

proof fn lemma_comps_of_segs_from(segs: Seq<Seq<char>>, abs: bool, k: int)
    requires
        0 <= k < comps_of_segs(segs, abs).len(),
        comps_of_segs(segs, abs)[k] is Normal,
    ensures
        segs.contains(comps_of_segs(segs, abs)[k]->Normal_0),
    decreases segs.len(),
{
    let prev = comps_of_segs(segs.drop_last(), abs);
    if k < prev.len() {
        match seg_comp(segs.last(), segs.len() == 1 && !abs) {
            Some(c) => assert(comps_of_segs(segs, abs)[k] == prev[k]),
            None => {},
        }
        lemma_comps_of_segs_from(segs.drop_last(), abs, k);
        let w = choose|w: int| 0 <= w < segs.drop_last().len() && segs.drop_last()[w] == prev[k]->Normal_0;
        assert(segs[w] == prev[k]->Normal_0);
    } else {
        assert(segs[segs.len() - 1] == segs.last());
    }
}

/// A plain component of a path never holds a separator.
pub proof fn lemma_normal_no_slash(s: Seq<char>, k: int)
    requires
        0 <= k < components(s).len(),
        components(s)[k] is Normal,
    ensures
        forall|i: int| 0 <= i < components(s)[k]->Normal_0.len() ==> (#[trigger] components(s)[k]->Normal_0[i]) != '/',
        components(s)[k]->Normal_0.len() > 0,
{
    let root: Seq<Comp<Seq<char>>> = if is_absolute(s) {
        seq![Comp::RootDir]
    } else {
        Seq::empty()
    };
    let rest = comps_of_segs(split_slash(s), is_absolute(s));
    assert(components(s) == root + rest);
    let j = k - root.len();
    assert(components(s)[k] == rest[j]);
    lemma_comps_of_segs_from(split_slash(s), is_absolute(s), j);
    lemma_split_no_slash(s);
    let w = choose|w: int| 0 <= w < split_slash(s).len() && split_slash(s)[w] == rest[j]->Normal_0;
    assert forall|i: int| 0 <= i < components(s)[k]->Normal_0.len() implies (#[trigger] components(s)[k]->Normal_0[i]) != '/' by {
        assert(split_slash(s)[w][i] != '/');
    }
    lemma_seg_comp_nonempty(split_slash(s), is_absolute(s), j);
}

proof fn lemma_seg_comp_nonempty(segs: Seq<Seq<char>>, abs: bool, k: int)
    requires
        0 <= k < comps_of_segs(segs, abs).len(),
        comps_of_segs(segs, abs)[k] is Normal,
    ensures
        comps_of_segs(segs, abs)[k]->Normal_0.len() > 0,
    decreases segs.len(),
{
    let prev = comps_of_segs(segs.drop_last(), abs);
    if k < prev.len() {
        match seg_comp(segs.last(), segs.len() == 1 && !abs) {
            Some(c) => assert(comps_of_segs(segs, abs)[k] == prev[k]),
            None => {},
        }
        lemma_seg_comp_nonempty(segs.drop_last(), abs, k);
    }
}

/// Joining a relative path onto `base` extends `base`.
pub proof fn lemma_join_prefix(base: Seq<char>, rel: Seq<char>)
    requires
        !is_absolute(rel),
    ensures
        starts_with(join(base, rel), base),
{
    let j = join(base, rel);
    if base.len() == 0 || base.last() == '/' {
        assert(j.subrange(0, base.len() as int) =~= base);
    } else {
        assert(j.subrange(0, base.len() as int) =~= base);
    }
}

/// Extending is transitive.
pub proof fn lemma_starts_with_trans(a: Seq<char>, b: Seq<char>, c: Seq<char>)
    requires
        starts_with(a, b),
        starts_with(b, c),
    ensures
        starts_with(a, c),
{
    assert(a.subrange(0, c.len() as int) =~= a.subrange(0, b.len() as int).subrange(0, c.len() as int));
}

// ------------------------------------------------------------------ exec

proof fn lemma_comps_view_push(s: Seq<Comp<String>>, c: Comp<String>)
    ensures
        comps_view(s.push(c)) == comps_view(s).push(comp_view(c)),
{
    assert(comps_view(s.push(c)) =~= comps_view(s).push(comp_view(c)));
}

proof fn lemma_split_len(s: Seq<char>)
    ensures
        split_slash(s).len() >= 1,
    decreases s.len(),
{
    if s.len() > 0 {
        lemma_split_len(s.drop_last());
    }
}

fn seg_to_comp(seg: &Vec<char>, first_relative: bool) -> (r: Option<Comp<String>>)
    ensures
        match r {
            Some(c) => seg_comp(seg@, first_relative) == Some(comp_view(c)),
            None => seg_comp(seg@, first_relative) is None,
        },
{
    if seg.len() == 0 {
        return None;
    }
    if seg.len() == 1 && seg[0] == '.' {
        assert(seg@ =~= seq!['.']);
        return if first_relative {
            Some(Comp::CurDir)
        } else {
            None
        };
    }
    if seg.len() == 2 && seg[0] == '.' && seg[1] == '.' {
        assert(seg@ =~= seq!['.', '.']);
        return Some(Comp::ParentDir);
    }
    assert(seg@ != seq!['.']) by {
        if seg@.len() == 1 {
            assert(seg@[0] == seq!['.'][0] || seg@ != seq!['.']);
        }
    }
    assert(seg@ != seq!['.', '.']) by {
        if seg@.len() == 2 {
            assert(seg@[0] != '.' || seg@[1] != '.');
            assert(seg@[0] == seq!['.', '.'][0] || seg@ != seq!['.', '.']);
            assert(seg@[1] == seq!['.', '.'][1] || seg@ != seq!['.', '.']);
        }
    }
    Some(Comp::Normal(string_of_all(seg)))
}

/// `Path::components`.
pub fn path_components(p: &str) -> (r: Vec<Comp<String>>)
    ensures
        comps_view(r@) == components(p@),
{
    let v = chars_of(p);
    let abs = v.len() > 0 && v[0] == '/';
    let mut out: Vec<Comp<String>> = Vec::new();
    if abs {
        out.push(Comp::RootDir);
    }
    let ghost root: Seq<Comp<Seq<char>>> = if abs {
        seq![Comp::RootDir]
    } else {
        Seq::empty()
    };
    let mut cur: Vec<char> = Vec::new();
    let mut first = true;
    let mut i: usize = 0;
    proof {
        assert(v@.subrange(0, 0) =~= Seq::<char>::empty());
        assert(comps_view(out@) =~= root);
        assert(Seq::<Seq<char>>::empty().push(Seq::<char>::empty()) =~= seq![Seq::<char>::empty()]);
    }
    while i < v.len()
        invariant
            i <= v@.len(),
            v@ == p@,
            abs == is_absolute(p@),
            root == (if abs {
                seq![Comp::RootDir]
            } else {
                Seq::<Comp<Seq<char>>>::empty()
            }),
            split_slash(v@.subrange(0, i as int)).len() >= 1,
            first == (split_slash(v@.subrange(0, i as int)).len() == 1),
            cur@ == split_slash(v@.subrange(0, i as int)).last(),
            comps_view(out@) == root + comps_of_segs(
                split_slash(v@.subrange(0, i as int)).drop_last(),
                abs,
            ),
        decreases v@.len() - i,
    {
        let ghost pre = v@.subrange(0, i as int);
        let ghost segs = split_slash(pre);
        let c = v[i];
        assert(v@.subrange(0, i + 1).drop_last() =~= pre);
        assert(v@.subrange(0, i + 1).last() == c);
        if c == '/' {
            let sc = seg_to_comp(&cur, first && !abs);
            proof {
                assert(segs.drop_last().push(segs.last()) =~= segs);
            }
            match sc {
                Some(comp) => {
                    let ghost old_out = out@;
                    out.push(comp);
                    proof {
                        lemma_comps_view_push(old_out, comp);
                        assert(comps_view(out@) =~= root + comps_of_segs(segs, abs));
                    }
                },
                None => {
                    assert(comps_view(out@) =~= root + comps_of_segs(segs, abs));
                },
            }
            cur = Vec::new();
            first = false;
            proof {
                assert(split_slash(v@.subrange(0, i + 1)) == segs.push(Seq::<char>::empty()));
                assert(segs.push(Seq::<char>::empty()).drop_last() =~= segs);
            }
        } else {
            cur.push(c);
            proof {
                let ns = segs.update(segs.len() - 1, segs.last().push(c));
                assert(split_slash(v@.subrange(0, i + 1)) == ns);
                assert(ns.drop_last() =~= segs.drop_last());
            }
        }
        i += 1;
    }
    proof {
        assert(v@.subrange(0, v@.len() as int) =~= v@);
    }
    let ghost segs = split_slash(v@);
    let sc = seg_to_comp(&cur, first && !abs);
    proof {
        assert(segs.drop_last().push(segs.last()) =~= segs);
    }
    match sc {
        Some(comp) => {
            let ghost old_out = out@;
            out.push(comp);
            proof {
                lemma_comps_view_push(old_out, comp);
            }
            assert(comps_view(out@) =~= root + comps_of_segs(segs, abs));
        },
        None => {
            assert(comps_view(out@) =~= root + comps_of_segs(segs, abs));
        },
    }
    out
}

fn comp_eq(a: &Comp<String>, b: &Comp<String>) -> (r: bool)
    ensures
        r == (comp_view(*a) == comp_view(*b)),
{
    match (a, b) {
        (Comp::RootDir, Comp::RootDir) => true,
        (Comp::CurDir, Comp::CurDir) => true,
        (Comp::ParentDir, Comp::ParentDir) => true,
        (Comp::Normal(x), Comp::Normal(y)) => str_eq(x.as_str(), y.as_str()),
        _ => false,
    }
}

/// Whether `a` and `b` are equal as `Path`s.
pub fn paths_equal(a: &str, b: &str) -> (r: bool)
    ensures
        r == same_path(a@, b@),
{
    let ca = path_components(a);
    let cb = path_components(b);
    comp_vecs_equal(&ca, &cb)
}

pub fn comp_vecs_equal(ca: &Vec<Comp<String>>, cb: &Vec<Comp<String>>) -> (r: bool)
    ensures
        r == (comps_view(ca@) == comps_view(cb@)),
{
    if ca.len() != cb.len() {
        assert(comps_view(ca@).len() != comps_view(cb@).len());
        return false;
    }
    let mut i: usize = 0;
    while i < ca.len()
        invariant
            i <= ca@.len(),
            ca@.len() == cb@.len(),
            forall|j: int| 0 <= j < i ==> comp_view(ca@[j]) == comp_view(cb@[j]),
        decreases ca@.len() - i,
    {
        if !comp_eq(&ca[i], &cb[i]) {
            assert(comps_view(ca@)[i as int] != comps_view(cb@)[i as int]);
            return false;
        }
        i += 1;
    }
    assert(comps_view(ca@) =~= comps_view(cb@));
    true
}

/// The path made of components `c`, as text.
pub fn comps_text(c: &Vec<Comp<String>>) -> (r: String)
    ensures
        r@ == push_all(Seq::empty(), comps_view(c@)),
{
    let ghost cv = comps_view(c@);
    let mut s = String::new();
    let mut j: usize = 0;
    while j < c.len()
        invariant
            j <= c@.len(),
            cv == comps_view(c@),
            s@ == push_all(Seq::empty(), cv.subrange(0, j as int)),
        decreases c@.len() - j,
    {
        assert(cv.subrange(0, j + 1).drop_last() =~= cv.subrange(0, j as int));
        assert(cv.subrange(0, j + 1).last() == crate::path::comp_view(c@[j as int]));
        let part = comp_string(&c[j]);
        s = path_join(s.as_str(), part.as_str());
        j += 1;
    }
    assert(cv.subrange(0, c@.len() as int) =~= cv);
    s
}

/// `Path::parent`: all components but the last, unless the last is the
/// root (or there are none).
pub open spec fn parent_path(p: Seq<char>) -> Option<Seq<char>> {
    let c = components(p);
    if c.len() == 0 || c.last() is RootDir {
        None
    } else {
        Some(push_all(Seq::empty(), c.drop_last()))
    }
}

pub fn path_parent(p: &str) -> (r: Option<String>)
    ensures
        match r {
            Some(s) => parent_path(p@) == Some(s@),
            None => parent_path(p@) is None,
        },
{
    let mut c = path_components(p);
    if c.len() == 0 {
        return None;
    }
    let last = c.len() - 1;
    assert(comps_view(c@).last() == comp_view(c@[last as int]));
    if let Comp::RootDir = c[last] {
        return None;
    }
    let ghost before = c@;
    c.pop();
    assert(comps_view(c@) =~= comps_view(before).drop_last());
    Some(comps_text(&c))
}

/// `Path::file_name`.
pub fn path_file_name(p: &str) -> (r: Option<String>)
    ensures
        match r {
            Some(n) => file_name(p@) == Some(n@),
            None => file_name(p@) is None,
        },
{
    let c = path_components(p);
    if c.len() == 0 {
        return None;
    }
    let last = c.len() - 1;
    assert(comps_view(c@).last() == comp_view(c@[last as int]));
    match &c[last] {
        Comp::Normal(n) => Some(n.clone()),
        _ => None,
    }
}

/// The extension of one file name (see `name_extension`).
pub fn name_ext(name: &str) -> (r: Option<String>)
    ensures
        match r {
            Some(e) => name_extension(name@) == Some(e@),
            None => name_extension(name@) is None,
        },
{
    let v = chars_of(name);
    let mut j: usize = v.len();
    assert(v@.subrange(0, j as int) =~= v@);
    while j > 0 && v[j - 1] != '.'
        invariant
            j <= v@.len(),
            v@ == name@,
            last_dot(v@) == last_dot(v@.subrange(0, j as int)),
        decreases j,
    {
        assert(v@.subrange(0, j as int).drop_last() =~= v@.subrange(0, j - 1));
        j -= 1;
    }
    if j <= 1 {
        proof {
            if j == 1 {
                assert(v@.subrange(0, 1).last() == '.');
            } else {
                assert(v@.subrange(0, 0).len() == 0);
            }
        }
        return None;
    }
    proof {
        assert(v@.subrange(0, j as int).last() == '.');
    }
    Some(string_of(&v, j, v.len()))
}

/// `Path::extension`.
pub fn path_extension(p: &str) -> (r: Option<String>)
    ensures
        match r {
            Some(e) => extension(p@) == Some(e@),
            None => extension(p@) is None,
        },
{
    match path_file_name(p) {
        Some(n) => name_ext(n.as_str()),
        None => None,
    }
}

/// `PathBuf::join`.
pub fn path_join(base: &str, rel: &str) -> (r: String)
    ensures
        r@ == join(base@, rel@),
{
    let rv = chars_of(rel);
    if rv.len() > 0 && rv[0] == '/' {
        return rel.to_owned();
    }
    let bv = chars_of(base);
    proof {
        reveal_strlit("/");
    }
    if bv.len() == 0 || bv[bv.len() - 1] == '/' {
        concat(base, rel)
    } else {
        concat3(base, "/", rel)
    }
}

pub fn comp_string(c: &Comp<String>) -> (r: String)
    ensures
        r@ == comp_text(comp_view(*c)),
{
    match c {
        Comp::RootDir => {
            let mut s = String::new();
            s.push('/');
            s
        },
        Comp::CurDir => {
            let mut s = String::new();
            s.push('.');
            s
        },
        Comp::ParentDir => {
            let mut s = String::new();
            s.push('.');
            s.push('.');
            s
        },
        Comp::Normal(n) => n.clone(),
    }
}

/// `Path::strip_prefix`, as the remaining components.
pub fn path_strip_prefix(path: &str, base: &str) -> (r: Option<Vec<Comp<String>>>)
    ensures
        match r {
            Some(rest) => strip_prefix(path@, base@) == Some(comps_view(rest@)),
            None => strip_prefix(path@, base@) is None,
        },
{
    let pc = path_components(path);
    let bc = path_components(base);
    if bc.len() > pc.len() {
        return None;
    }
    let mut i: usize = 0;
    while i < bc.len()
        invariant
            i <= bc@.len(),
            bc@.len() <= pc@.len(),
            comps_view(pc@) == components(path@),
            comps_view(bc@) == components(base@),
            forall|j: int| 0 <= j < i ==> comp_view(pc@[j]) == comp_view(bc@[j]),
        decreases bc@.len() - i,
    {
        if !comp_eq(&pc[i], &bc[i]) {
            proof {
                let x = comps_view(pc@).subrange(0, bc@.len() as int);
                assert(x[i as int] != comps_view(bc@)[i as int]);
                assert(x != comps_view(bc@));
            }
            return None;
        }
        i += 1;
    }
    assert(comps_view(pc@).subrange(0, bc@.len() as int) =~= comps_view(bc@));
    let mut rest: Vec<Comp<String>> = Vec::new();
    let mut k = bc.len();
    while k < pc.len()
        invariant
            bc@.len() <= k <= pc@.len(),
            comps_view(rest@) == comps_view(pc@).subrange(bc@.len() as int, k as int),
        decreases pc@.len() - k,
    {
        let c = match &pc[k] {
            Comp::RootDir => Comp::RootDir,
            Comp::CurDir => Comp::CurDir,
            Comp::ParentDir => Comp::ParentDir,
            Comp::Normal(n) => Comp::Normal(n.clone()),
        };
        let ghost old_rest = rest@;
        rest.push(c);
        proof {
            lemma_comps_view_push(old_rest, c);
        }
        assert(comps_view(rest@) =~= comps_view(pc@).subrange(bc@.len() as int, k + 1));
        k += 1;
    }
    Some(rest)
}


// --------------------------------------------------------------- ordering

/// Three-way comparison result.
#[derive(Debug, Clone, Copy, PartialEq, Eq, Structural)]
pub enum Order3 {
    Less,
    Equal,
    Greater,
}

/// Lexicographic order on character sequences (code-point order, which is
/// also the byte order of their UTF-8 encodings).
pub open spec fn chars_order(a: Seq<char>, b: Seq<char>) -> Order3
    decreases a.len(),
{
    if a.len() == 0 {
        if b.len() == 0 {
            Order3::Equal
        } else {
            Order3::Less
        }
    } else if b.len() == 0 {
        Order3::Greater
    } else if a[0] < b[0] {
        Order3::Less
    } else if a[0] > b[0] {
        Order3::Greater
    } else {
        chars_order(a.drop_first(), b.drop_first())
    }
}

pub open spec fn comp_rank(c: Comp<Seq<char>>) -> int {
    match c {
        Comp::RootDir => 0,
        Comp::CurDir => 1,
        Comp::ParentDir => 2,
        Comp::Normal(_) => 3,
    }
}

/// `Component` order: root < `.` < `..` < names, names by their text.
pub open spec fn comp_order(a: Comp<Seq<char>>, b: Comp<Seq<char>>) -> Order3 {
    if comp_rank(a) < comp_rank(b) {
        Order3::Less
    } else if comp_rank(a) > comp_rank(b) {
        Order3::Greater
    } else {
        match (a, b) {
            (Comp::Normal(x), Comp::Normal(y)) => chars_order(x, y),
            _ => Order3::Equal,
        }
    }
}

pub open spec fn comps_order(a: Seq<Comp<Seq<char>>>, b: Seq<Comp<Seq<char>>>) -> Order3
    decreases a.len(),
{
    if a.len() == 0 {
        if b.len() == 0 {
            Order3::Equal
        } else {
            Order3::Less
        }
    } else if b.len() == 0 {
        Order3::Greater
    } else {
        match comp_order(a[0], b[0]) {
            Order3::Equal => comps_order(a.drop_first(), b.drop_first()),
            o => o,
        }
    }
}

/// `Path` order: component-wise lexicographic.
pub open spec fn path_order(a: Seq<char>, b: Seq<char>) -> Order3 {
    comps_order(components(a), components(b))
}

/// `set` (kept in ascending `Path` order) with `x` added unless a path
/// equal to it is already present; the first-added spelling is kept.
pub open spec fn insert_sorted(set: Seq<Seq<char>>, x: Seq<char>) -> Seq<Seq<char>>
    decreases set.len(),
{
    if set.len() == 0 {
        seq![x]
    } else {
        match path_order(x, set[0]) {
            Order3::Equal => set,
            Order3::Less => seq![x] + set,
            Order3::Greater => seq![set[0]] + insert_sorted(set.drop_first(), x),
        }
    }
}

pub open spec fn insert_all_sorted(set: Seq<Seq<char>>, xs: Seq<Seq<char>>) -> Seq<Seq<char>>
    decreases xs.len(),
{
    if xs.len() == 0 {
        set
    } else {
        insert_sorted(insert_all_sorted(set, xs.drop_last()), xs.last())
    }
}

/// Code-point lexicographic comparison.
pub fn chars_compare_pub(a: &Vec<char>, b: &Vec<char>) -> (r: Order3)
    ensures
        r == chars_order(a@, b@),
{
    chars_compare(a, b)
}

fn chars_compare(a: &Vec<char>, b: &Vec<char>) -> (r: Order3)
    ensures
        r == chars_order(a@, b@),
{
    let mut i: usize = 0;
    assert(a@.subrange(0, a@.len() as int) =~= a@);
    assert(b@.subrange(0, b@.len() as int) =~= b@);
    while i < a.len() && i < b.len()
        invariant
            i <= a@.len(),
            i <= b@.len(),
            chars_order(a@, b@) == chars_order(
                a@.subrange(i as int, a@.len() as int),
                b@.subrange(i as int, b@.len() as int),
            ),
        decreases a@.len() - i,
    {
        let ghost x = a@.subrange(i as int, a@.len() as int);
        let ghost y = b@.subrange(i as int, b@.len() as int);
        assert(x[0] == a@[i as int] && y[0] == b@[i as int]);
        assert(x.drop_first() =~= a@.subrange(i + 1, a@.len() as int));
        assert(y.drop_first() =~= b@.subrange(i + 1, b@.len() as int));
        let ca = a[i];
        let cb = b[i];
        if ca < cb {
            return Order3::Less;
        }
        if ca > cb {
            return Order3::Greater;
        }
        i += 1;
    }
    if i == a.len() {
        if i == b.len() {
            Order3::Equal
        } else {
            Order3::Less
        }
    } else {
        Order3::Greater
    }
}

fn comp_compare(a: &Comp<String>, b: &Comp<String>) -> (r: Order3)
    ensures
        r == comp_order(comp_view(*a), comp_view(*b)),
{
    let ra: u8 = match a {
        Comp::RootDir => 0,
        Comp::CurDir => 1,
        Comp::ParentDir => 2,
        Comp::Normal(_) => 3,
    };
    let rb: u8 = match b {
        Comp::RootDir => 0,
        Comp::CurDir => 1,
        Comp::ParentDir => 2,
        Comp::Normal(_) => 3,
    };
    if ra < rb {
        return Order3::Less;
    }
    if ra > rb {
        return Order3::Greater;
    }
    match (a, b) {
        (Comp::Normal(x), Comp::Normal(y)) => {
            let xv = chars_of(x.as_str());
            let yv = chars_of(y.as_str());
            chars_compare(&xv, &yv)
        },
        _ => Order3::Equal,
    }
}

/// `Path` ordering.
pub fn path_compare(a: &str, b: &str) -> (r: Order3)
    ensures
        r == path_order(a@, b@),
{
    let ca = path_components(a);
    let cb = path_components(b);
    let mut i: usize = 0;
    assert(comps_view(ca@).subrange(0, ca@.len() as int) =~= comps_view(ca@));
    assert(comps_view(cb@).subrange(0, cb@.len() as int) =~= comps_view(cb@));
    while i < ca.len() && i < cb.len()
        invariant
            i <= ca@.len(),
            i <= cb@.len(),
            path_order(a@, b@) == comps_order(
                comps_view(ca@).subrange(i as int, ca@.len() as int),
                comps_view(cb@).subrange(i as int, cb@.len() as int),
            ),
        decreases ca@.len() - i,
    {
        let ghost x = comps_view(ca@).subrange(i as int, ca@.len() as int);
        let ghost y = comps_view(cb@).subrange(i as int, cb@.len() as int);
        assert(x.drop_first() =~= comps_view(ca@).subrange(i + 1, ca@.len() as int));
        assert(y.drop_first() =~= comps_view(cb@).subrange(i + 1, cb@.len() as int));
        match comp_compare(&ca[i], &cb[i]) {
            Order3::Equal => {},
            o => {
                return o;
            },
        }
        i += 1;
    }
    proof {
        assert(comps_view(ca@).subrange(0, ca@.len() as int) =~= comps_view(ca@));
    }
    if i == ca.len() {
        if i == cb.len() {
            Order3::Equal
        } else {
            Order3::Less
        }
    } else {
        Order3::Greater
    }
}

pub open spec fn strings_view(v: Seq<String>) -> Seq<Seq<char>> {
    v.map_values(|s: String| s@)
}

/// Adds `x` to a set of paths kept in ascending `Path` order, unless an
/// equal path is already there.
pub fn insert_path_sorted(set: &mut Vec<String>, x: String)
    ensures
        strings_view(final(set)@) == insert_sorted(strings_view(old(set)@), x@),
{
    let ghost orig = strings_view(set@);
    let mut i: usize = 0;
    assert(strings_view(set@).subrange(0, 0) + strings_view(set@).subrange(0, set@.len() as int)
        =~= orig);
    while i < set.len()
        invariant
            i <= set@.len(),
            set@ == old(set)@,
            orig == strings_view(set@),
            insert_sorted(orig, x@) == strings_view(set@).subrange(0, i as int) + insert_sorted(
                strings_view(set@).subrange(i as int, set@.len() as int),
                x@,
            ),
        decreases set@.len() - i,
    {
        let ghost rest = strings_view(set@).subrange(i as int, set@.len() as int);
        assert(rest[0] == set@[i as int]@);
        assert(rest.drop_first() =~= strings_view(set@).subrange(i + 1, set@.len() as int));
        match path_compare(x.as_str(), set[i].as_str()) {
            Order3::Equal => {
                assert(strings_view(set@).subrange(0, i as int) + rest =~= strings_view(set@));
                return;
            },
            Order3::Less => {
                let ghost before = set@;
                set.insert(i, x);
                proof {
                    assert(strings_view(set@) =~= strings_view(before).subrange(0, i as int) + (
                    seq![x@] + rest));
                }
                return;
            },
            Order3::Greater => {
                assert(strings_view(set@).subrange(0, i + 1) =~= strings_view(set@).subrange(
                    0,
                    i as int,
                ).push(rest[0]));
                assert(strings_view(set@).subrange(0, i + 1) + insert_sorted(
                    rest.drop_first(),
                    x@,
                ) =~= strings_view(set@).subrange(0, i as int) + (seq![rest[0]] + insert_sorted(
                    rest.drop_first(),
                    x@,
                )));
            },
        }
        i += 1;
    }
    let ghost before = set@;
    set.push(x);
    assert(strings_view(set@) =~= strings_view(before).subrange(0, before.len() as int) + seq![x@]);
}

// ----------------------------------------------------- ordering lemmas

pub proof fn lemma_chars_order(a: Seq<char>, b: Seq<char>)
    ensures
        (chars_order(a, b) == Order3::Less) == (chars_order(b, a) == Order3::Greater),
        (chars_order(a, b) == Order3::Equal) == (a == b),
    decreases a.len(),
{
    if a.len() > 0 && b.len() > 0 {
        if a[0] == b[0] {
            lemma_chars_order(a.drop_first(), b.drop_first());
            assert(chars_order(a, b) == chars_order(a.drop_first(), b.drop_first()));
            assert(chars_order(b, a) == chars_order(b.drop_first(), a.drop_first()));
            if a.drop_first() == b.drop_first() {
                assert(a =~= seq![a[0]] + a.drop_first());
                assert(b =~= seq![b[0]] + b.drop_first());
            }
            if a == b {
                assert(a.drop_first() == b.drop_first());
            }
        } else {
            assert(a != b);
        }
    } else if a.len() == 0 && b.len() > 0 {
        assert(a != b);
    } else if a.len() > 0 && b.len() == 0 {
        assert(a != b);
    } else {
        assert(a =~= b);
    }
}

pub proof fn lemma_chars_order_trans(a: Seq<char>, b: Seq<char>, c: Seq<char>)
    requires
        chars_order(a, b) == Order3::Less,
        chars_order(b, c) == Order3::Less,
    ensures
        chars_order(a, c) == Order3::Less,
    decreases a.len(),
{
    if a.len() > 0 && b.len() > 0 && c.len() > 0 && a[0] == b[0] && b[0] == c[0] {
        lemma_chars_order_trans(a.drop_first(), b.drop_first(), c.drop_first());
    }
}

proof fn lemma_comp_order(a: Comp<Seq<char>>, b: Comp<Seq<char>>)
    ensures
        (comp_order(a, b) == Order3::Less) == (comp_order(b, a) == Order3::Greater),
        (comp_order(a, b) == Order3::Equal) == (a == b),
{
    match (a, b) {
        (Comp::Normal(x), Comp::Normal(y)) => {
            lemma_chars_order(x, y);
        },
        _ => {},
    }
}

proof fn lemma_comp_order_trans(a: Comp<Seq<char>>, b: Comp<Seq<char>>, c: Comp<Seq<char>>)
    requires
        comp_order(a, b) != Order3::Greater,
        comp_order(b, c) != Order3::Greater,
    ensures
        comp_order(a, c) != Order3::Greater,
        comp_order(a, b) == Order3::Less || comp_order(b, c) == Order3::Less ==> comp_order(a, c)
            == Order3::Less,
{
    lemma_comp_order(a, b);
    lemma_comp_order(b, c);
    lemma_comp_order(a, c);
    match (a, b, c) {
        (Comp::Normal(x), Comp::Normal(y), Comp::Normal(z)) => {
            lemma_chars_order(x, y);
            lemma_chars_order(y, z);
            lemma_chars_order(x, z);
            if chars_order(x, y) == Order3::Less && chars_order(y, z) == Order3::Less {
                lemma_chars_order_trans(x, y, z);
            }
        },
        _ => {},
    }
}

pub proof fn lemma_comps_order(a: Seq<Comp<Seq<char>>>, b: Seq<Comp<Seq<char>>>)
    ensures
        (comps_order(a, b) == Order3::Less) == (comps_order(b, a) == Order3::Greater),
        (comps_order(a, b) == Order3::Equal) == (a == b),
    decreases a.len(),
{
    if a.len() > 0 && b.len() > 0 {
        lemma_comp_order(a[0], b[0]);
        lemma_comps_order(a.drop_first(), b.drop_first());
        if a[0] == b[0] && a.drop_first() == b.drop_first() {
            assert(a =~= seq![a[0]] + a.drop_first());
            assert(b =~= seq![b[0]] + b.drop_first());
        }
        if a == b {
            assert(a.drop_first() == b.drop_first());
        }
        lemma_comp_order(b[0], a[0]);
        if comp_order(a[0], b[0]) == Order3::Equal {
            assert(comps_order(a, b) == comps_order(a.drop_first(), b.drop_first()));
            assert(comps_order(b, a) == comps_order(b.drop_first(), a.drop_first()));
        } else {
            assert(comps_order(a, b) == comp_order(a[0], b[0]));
            assert(comps_order(b, a) == comp_order(b[0], a[0]));
            assert(a != b);
        }
    } else if a.len() == 0 && b.len() > 0 {
        assert(a != b);
    } else if a.len() > 0 && b.len() == 0 {
        assert(a != b);
    } else {
        assert(a =~= b);
    }
}

pub proof fn lemma_comps_order_trans(
    a: Seq<Comp<Seq<char>>>,
    b: Seq<Comp<Seq<char>>>,
    c: Seq<Comp<Seq<char>>>,
)
    requires
        comps_order(a, b) == Order3::Less,
        comps_order(b, c) == Order3::Less,
    ensures
        comps_order(a, c) == Order3::Less,
    decreases a.len(),
{
    if a.len() > 0 && b.len() > 0 && c.len() > 0 {
        lemma_comp_order(a[0], b[0]);
        lemma_comp_order(b[0], c[0]);
        lemma_comp_order(a[0], c[0]);
        lemma_comp_order_trans(a[0], b[0], c[0]);
        if comp_order(a[0], b[0]) == Order3::Equal && comp_order(b[0], c[0]) == Order3::Equal {
            lemma_comps_order_trans(a.drop_first(), b.drop_first(), c.drop_first());
        }
    }
}

/// A proper prefix of components sorts first.
pub proof fn lemma_comps_prefix_less(a: Seq<Comp<Seq<char>>>, b: Seq<Comp<Seq<char>>>)
    requires
        a.len() < b.len(),
        b.subrange(0, a.len() as int) == a,
    ensures
        comps_order(a, b) == Order3::Less,
    decreases a.len(),
{
    if a.len() > 0 {
        assert(b[0] == a[0]);
        lemma_comp_order(a[0], b[0]);
        assert(b.drop_first().subrange(0, a.drop_first().len() as int) =~= a.drop_first());
        lemma_comps_prefix_less(a.drop_first(), b.drop_first());
    }
}

/// Strictly ascending in `Path` order (hence free of equal paths).
pub open spec fn strictly_sorted(s: Seq<Seq<char>>) -> bool {
    forall|i: int, j: int| 0 <= i < j < s.len() ==> path_order(s[i], s[j]) == Order3::Less
}

pub proof fn lemma_insert_sorted(set: Seq<Seq<char>>, x: Seq<char>)
    requires
        strictly_sorted(set),
    ensures
        strictly_sorted(insert_sorted(set, x)),
        forall|y: Seq<char>| #[trigger] insert_sorted(set, x).contains(y) ==> set.contains(y) || y == x,
        set.len() <= insert_sorted(set, x).len(),
    decreases set.len(),
{
    if set.len() == 0 {
        let r = insert_sorted(set, x);
        assert(r =~= seq![x]);
        assert forall|y: Seq<char>| #[trigger] r.contains(y) implies set.contains(y) || y == x by {
            let k = choose|k: int| 0 <= k < r.len() && r[k] == y;
        }
    } else {
        let r = insert_sorted(set, x);
        lemma_comps_order(components(x), components(set[0]));
        lemma_comps_order(components(set[0]), components(x));
        match path_order(x, set[0]) {
            Order3::Equal => {},
            Order3::Less => {
                assert(r =~= seq![x] + set);
                assert(r[0] == x);
                assert forall|i: int, j: int| 0 <= i < j < r.len() implies path_order(r[i], r[j])
                    == Order3::Less by {
                    if i == 0 {
                        assert(r[j] == set[j - 1]);
                        if j - 1 > 0 {
                            assert(path_order(set[0], set[j - 1]) == Order3::Less);
                            lemma_comps_order_trans(
                                components(x),
                                components(set[0]),
                                components(set[j - 1]),
                            );
                        }
                    } else {
                        assert(r[i] == set[i - 1] && r[j] == set[j - 1]);
                    }
                }
                assert forall|y: Seq<char>| #[trigger] r.contains(y) implies set.contains(y) || y
                    == x by {
                    let k = choose|k: int| 0 <= k < r.len() && r[k] == y;
                    if k > 0 {
                        assert(set[k - 1] == y);
                    }
                }
            },
            Order3::Greater => {
                let rest = set.drop_first();
                assert forall|i: int, j: int| 0 <= i < j < rest.len() implies path_order(
                    rest[i],
                    rest[j],
                ) == Order3::Less by {
                    assert(rest[i] == set[i + 1] && rest[j] == set[j + 1]);
                }
                lemma_insert_sorted(rest, x);
                let tail = insert_sorted(rest, x);
                assert(r =~= seq![set[0]] + tail);
                assert forall|i: int, j: int| 0 <= i < j < r.len() implies path_order(r[i], r[j])
                    == Order3::Less by {
                    if i == 0 {
                        assert(r[j] == tail[j - 1]);
                        assert(tail.contains(tail[j - 1]));
                        if rest.contains(tail[j - 1]) {
                            let k = choose|k: int| 0 <= k < rest.len() && rest[k] == tail[j - 1];
                            assert(set[k + 1] == tail[j - 1]);
                            assert(path_order(set[0], set[k + 1]) == Order3::Less);
                        } else {
                            assert(tail[j - 1] == x);
                        }
                    } else {
                        assert(r[i] == tail[i - 1] && r[j] == tail[j - 1]);
                        assert(path_order(tail[i - 1], tail[j - 1]) == Order3::Less);
                    }
                }
                assert forall|y: Seq<char>| #[trigger] r.contains(y) implies set.contains(y) || y
                    == x by {
                    let k = choose|k: int| 0 <= k < r.len() && r[k] == y;
                    if k > 0 {
                        assert(tail[k - 1] == y);
                        assert(tail.contains(y));
                        if rest.contains(y) {
                            let w = choose|w: int| 0 <= w < rest.len() && rest[w] == y;
                            assert(set[w + 1] == y);
                        }
                    }
                }
            },
        }
    }
}

/// What a sorted insertion holds came from the set or the inserted items.
pub proof fn lemma_insert_all_sorted_members(set: Seq<Seq<char>>, xs: Seq<Seq<char>>)
    requires
        strictly_sorted(set),
    ensures
        forall|y: Seq<char>| #[trigger] insert_all_sorted(set, xs).contains(y) ==> set.contains(y) || xs.contains(y),
    decreases xs.len(),
{
    if xs.len() > 0 {
        lemma_insert_all_sorted_members(set, xs.drop_last());
        lemma_insert_all_sorted(set, xs.drop_last());
        lemma_insert_sorted(insert_all_sorted(set, xs.drop_last()), xs.last());
        assert forall|y: Seq<char>| #[trigger] insert_all_sorted(set, xs).contains(y) implies set.contains(y) || xs.contains(y) by {
            if insert_all_sorted(set, xs.drop_last()).contains(y) {
                if xs.drop_last().contains(y) {
                    let w = choose|w: int| 0 <= w < xs.drop_last().len() && xs.drop_last()[w] == y;
                    assert(xs[w] == y);
                }
            } else {
                assert(y == xs.last());
                assert(xs[xs.len() - 1] == y);
            }
        }
    }
}

pub proof fn lemma_insert_all_sorted(set: Seq<Seq<char>>, xs: Seq<Seq<char>>)
    requires
        strictly_sorted(set),
    ensures
        strictly_sorted(insert_all_sorted(set, xs)),
    decreases xs.len(),
{
    if xs.len() > 0 {
        lemma_insert_all_sorted(set, xs.drop_last());
        lemma_insert_sorted(insert_all_sorted(set, xs.drop_last()), xs.last());
    }
}

} // verus!
