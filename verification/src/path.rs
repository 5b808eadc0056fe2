//! Unix paths held as `String`s, read as sequences of components the way
//! `std::path::Path` reads them: a leading `/` is the root, repeated separators
//! and interior `.` segments are ignored, and a leading `.` of a relative path
//! is kept. A component is written by its text: `/` for the root, `.` and `..`
//! for the current and parent directory, and the name itself otherwise.

use vstd::prelude::*;

use crate::text::{
    lemma_split_at_last_sep, lemma_split_pieces_without_sep, lemma_split_without_sep,
    lemma_split_on_nonempty, push_char, push_str, split_char, split_on, str_equal, to_chars,
    to_owned_string,
};

verus! {

/// The text of the root component.
pub open spec fn root_text() -> Seq<char> {
    seq!['/']
}

/// The text of the current-directory component.
pub open spec fn cur_text() -> Seq<char> {
    seq!['.']
}

/// The text of the parent-directory component.
pub open spec fn parent_text() -> Seq<char> {
    seq!['.', '.']
}

/// Whether the path starts at the root.
pub open spec fn has_root(p: Seq<char>) -> bool {
    p.len() > 0 && p[0] == '/'
}

/// Whether a component is a name (not the root, `.` or `..`).
pub open spec fn is_normal(c: Seq<char>) -> bool {
    c != root_text() && c != cur_text() && c != parent_text()
}

/// The segments that name components: empty segments and `.` are dropped.
pub open spec fn kept_segments(segs: Seq<Seq<char>>) -> Seq<Seq<char>>
    decreases segs.len(),
{
    if segs.len() == 0 {
        Seq::empty()
    } else {
        let rest = kept_segments(segs.drop_first());
        if segs[0].len() == 0 || segs[0] == cur_text() {
            rest
        } else {
            seq![segs[0]] + rest
        }
    }
}

/// The components of a path.
pub open spec fn components(p: Seq<char>) -> Seq<Seq<char>> {
    let segs = split_on(p, '/');
    let root = if has_root(p) { seq![root_text()] } else { Seq::<Seq<char>>::empty() };
    let cur = if !has_root(p) && segs[0] == cur_text() { seq![cur_text()] } else { Seq::<Seq<char>>::empty() };
    root + cur + kept_segments(segs)
}

/// The parts joined with `/` between them.
pub open spec fn join_parts(parts: Seq<Seq<char>>) -> Seq<char>
    decreases parts.len(),
{
    if parts.len() == 0 {
        Seq::empty()
    } else if parts.len() == 1 {
        parts[0]
    } else {
        join_parts(parts.drop_last()) + seq!['/'] + parts.last()
    }
}

/// The path written from a component sequence.
pub open spec fn path_of(c: Seq<Seq<char>>) -> Seq<char> {
    if c.len() > 0 && c[0] == root_text() {
        root_text() + join_parts(c.drop_first())
    } else {
        join_parts(c)
    }
}

/// `Path::join` of a relative or absolute path onto `base`.
pub open spec fn join_spec(base: Seq<char>, rel: Seq<char>) -> Seq<char> {
    if has_root(rel) {
        rel
    } else if base.len() > 0 && base.last() != '/' {
        base + seq!['/'] + rel
    } else {
        base + rel
    }
}

/// `Path::file_name`: the last component when it is a name.
pub open spec fn file_name_spec(p: Seq<char>) -> Option<Seq<char>> {
    let c = components(p);
    if c.len() > 0 && is_normal(c.last()) {
        Some(c.last())
    } else {
        None
    }
}

/// `Path::parent`: the path without its last component, absent for the root
/// and the empty path.
pub open spec fn parent_spec(p: Seq<char>) -> Option<Seq<char>> {
    let c = components(p);
    if c.len() > 0 && c.last() != root_text() {
        Some(path_of(c.drop_last()))
    } else {
        None
    }
}

/// `Path::starts_with`: the components of `base` begin the components of `p`.
pub open spec fn starts_with_spec(p: Seq<char>, base: Seq<char>) -> bool {
    let cp = components(p);
    let cb = components(base);
    cb.len() <= cp.len() && cp.take(cb.len() as int) == cb
}

/// The first component of `p` after the components of `base`, when `p` starts with `base`.
pub open spec fn component_after_spec(p: Seq<char>, base: Seq<char>) -> Option<Seq<char>> {
    let cp = components(p);
    let cb = components(base);
    if starts_with_spec(p, base) && cb.len() < cp.len() {
        Some(cp[cb.len() as int])
    } else {
        None
    }
}

/// The components before the last `.git` component, if any: searching the
/// ancestors of a path for one named `.git` and taking its parent.
pub open spec fn before_last_git(c: Seq<Seq<char>>) -> Option<Seq<Seq<char>>>
    decreases c.len(),
{
    if c.len() == 0 {
        None
    } else if c.last() == ".git"@ {
        Some(c.drop_last())
    } else {
        before_last_git(c.drop_last())
    }
}

/// The repository root of a git worktree's canonical `gitdir`, which lies
/// under `<root>/.git/worktrees/<name>`.
pub open spec fn main_repo_from_gitdir_spec(gitdir: Seq<char>) -> Option<Seq<char>> {
    match before_last_git(components(gitdir)) {
        Some(c) => Some(path_of(c)),
        None => None,
    }
}

/// The repository root of a jj workspace whose `.jj/repo` resolves to the
/// canonical path `target`, which lies at `<root>/.jj/repo`.
pub open spec fn main_repo_from_jj_spec(target: Seq<char>) -> Option<Seq<char>> {
    let c = components(target);
    if c.len() >= 2 && c.last() != root_text() && c[c.len() - 2] == ".jj"@ {
        Some(path_of(c.take(c.len() - 2)))
    } else {
        None
    }
}

/// The texts of a sequence of strings.
pub open spec fn seg_views(v: Seq<String>) -> Seq<Seq<char>> {
    v.map_values(|s: String| s@)
}

fn is_cur(s: &String) -> (b: bool)
    ensures
        b == (s@ == cur_text()),
{
    let c = to_chars(s.as_str());
    let b = c.len() == 1 && c[0] == '.';
    proof {
        if c@.len() == 1 && c@[0] == '.' {
            assert(c@ =~= cur_text());
        }
    }
    b
}

fn is_empty_string(s: &String) -> (b: bool)
    ensures
        b == (s@.len() == 0),
{
    let c = to_chars(s.as_str());
    c.len() == 0
}

/// The components of the path `p`, each by its text.
pub fn path_components(p: &str) -> (c: Vec<String>)
    ensures
        seg_views(c@) == components(p@),
{
    let chars = to_chars(p);
    let rooted = chars.len() > 0 && chars[0] == '/';
    let segs = split_char(p, '/');
    proof {
        lemma_split_on_nonempty(p@, '/');
        assert(seg_views(segs@).len() == segs@.len());
    }
    let mut out: Vec<String> = Vec::new();
    if rooted {
        let mut r = String::new();
        push_char(&mut r, '/');
        assert(r@ =~= root_text());
        out.push(r);
    } else if is_cur(&segs[0]) {
        let mut r = String::new();
        push_char(&mut r, '.');
        assert(r@ =~= cur_text());
        out.push(r);
    }
    let ghost prefix = seg_views(out@);
    assert(prefix == components(p@).take(prefix.len() as int)) by {
        let segs_v = split_on(p@, '/');
        assert(segs_v[0] == seg_views(segs@)[0]);
    }
    let n = segs.len();
    let mut i = n;
    let mut tail: Vec<String> = Vec::new();
    // Walk the segments from the end so that the kept ones come out in order.
    while i > 0
        invariant
            i <= n == segs@.len(),
            seg_views(tail@).reverse() == kept_segments(seg_views(segs@).skip(i as int)),
        decreases i,
    {
        i = i - 1;
        let ghost sv = seg_views(segs@);
        proof {
            assert(sv.skip(i as int).drop_first() =~= sv.skip(i + 1));
            assert(sv.skip(i as int)[0] == sv[i as int]);
        }
        if !is_empty_string(&segs[i]) && !is_cur(&segs[i]) {
            let ghost before = seg_views(tail@);
            tail.push(segs[i].clone());
            proof {
                assert(seg_views(tail@) =~= before.push(sv[i as int]));
                assert(seg_views(tail@).reverse() =~= seq![sv[i as int]] + before.reverse());
            }
        }
    }
    let mut j = tail.len();
    let ghost kept = kept_segments(seg_views(segs@));
    proof {
        assert(seg_views(segs@).skip(0) =~= seg_views(segs@));
    }
    let ghost base_len = out@.len();
    while j > 0
        invariant
            j <= tail@.len(),
            base_len == out@.len() - (tail@.len() - j),
            seg_views(tail@).reverse() == kept,
            seg_views(out@) == prefix + kept.take(tail@.len() - j),
        decreases j,
    {
        j = j - 1;
        let ghost before = seg_views(out@);
        out.push(tail[j].clone());
        proof {
            let k = tail@.len() - j - 1;
            assert(kept[k] == seg_views(tail@)[j as int]);
            assert(kept.take(k + 1) =~= kept.take(k).push(kept[k]));
            assert(seg_views(out@) =~= before.push(seg_views(tail@)[j as int]));
        }
    }
    proof {
        assert(kept.take(tail@.len() as int) =~= kept);
        let segs_v = split_on(p@, '/');
        assert(seg_views(segs@) == segs_v);
        assert(seg_views(out@) =~= components(p@));
    }
    out
}

/// The parts `c[from..to]` joined with `/`.
fn join_range(c: &Vec<String>, from: usize, to: usize) -> (s: String)
    requires
        from <= to <= c@.len(),
    ensures
        s@ == join_parts(seg_views(c@).subrange(from as int, to as int)),
{
    let ghost cv = seg_views(c@);
    if from == to {
        assert(cv.subrange(from as int, to as int).len() == 0);
        return String::new();
    }
    let mut s = to_owned_string(c[from].as_str());
    let mut k = from + 1;
    assert(cv.subrange(from as int, k as int) =~= seq![cv[from as int]]);
    while k < to
        invariant
            from < k <= to <= c@.len(),
            cv == seg_views(c@),
            s@ == join_parts(cv.subrange(from as int, k as int)),
        decreases to - k,
    {
        push_char(&mut s, '/');
        push_str(&mut s, c[k].as_str());
        proof {
            let sub = cv.subrange(from as int, k + 1);
            assert(sub.drop_last() =~= cv.subrange(from as int, k as int));
            assert(sub.last() == cv[k as int]);
        }
        k = k + 1;
    }
    s
}

/// The path written from the first `n` components of `c`.
pub fn path_from_components(c: &Vec<String>, n: usize) -> (p: String)
    requires
        n <= c@.len(),
    ensures
        p@ == path_of(seg_views(c@).take(n as int)),
{
    let ghost cv = seg_views(c@);
    if n > 0 && str_equal(c[0].as_str(), "/") {
        proof {
            reveal_strlit("/");
            assert("/"@ =~= root_text());
        }
        let mut p = String::new();
        push_char(&mut p, '/');
        let rest = join_range(c, 1, n);
        push_str(&mut p, rest.as_str());
        proof {
            assert(cv.take(n as int).drop_first() =~= cv.subrange(1, n as int));
            assert(p@ =~= root_text() + join_parts(cv.subrange(1, n as int)));
        }
        p
    } else {
        proof {
            reveal_strlit("/");
            assert("/"@ =~= root_text());
            assert(cv.take(n as int) =~= cv.subrange(0, n as int));
        }
        join_range(c, 0, n)
    }
}

/// `Path::join`: `rel` appended to `base` with one separator, or `rel` itself
/// when it is absolute.
pub fn path_join(base: &str, rel: &str) -> (p: String)
    ensures
        p@ == join_spec(base@, rel@),
{
    let bc = to_chars(base);
    let rc = to_chars(rel);
    if rc.len() > 0 && rc[0] == '/' {
        return to_owned_string(rel);
    }
    let mut p = to_owned_string(base);
    if bc.len() > 0 && bc[bc.len() - 1] != '/' {
        push_char(&mut p, '/');
    }
    push_str(&mut p, rel);
    p
}

/// `Path::file_name`: the last component of `p` when it is a name.
pub fn file_name(p: &str) -> (r: Option<String>)
    ensures
        r matches Some(s) ==> file_name_spec(p@) == Some(s@),
        r is None ==> file_name_spec(p@) is None,
{
    let c = path_components(p);
    let n = c.len();
    if n == 0 {
        return None;
    }
    let last = &c[n - 1];
    proof {
        reveal_strlit("/");
        reveal_strlit(".");
        reveal_strlit("..");
        assert("/"@ =~= root_text());
        assert("."@ =~= cur_text());
        assert(".."@ =~= parent_text());
        assert(seg_views(c@).last() == last@);
    }
    if str_equal(last.as_str(), "/") || str_equal(last.as_str(), ".") || str_equal(last.as_str(), "..") {
        None
    } else {
        Some(last.clone())
    }
}

/// `Path::parent`: `p` without its last component.
pub fn parent(p: &str) -> (r: Option<String>)
    ensures
        r matches Some(s) ==> parent_spec(p@) == Some(s@),
        r is None ==> parent_spec(p@) is None,
{
    let c = path_components(p);
    let n = c.len();
    if n == 0 {
        return None;
    }
    proof {
        reveal_strlit("/");
        assert("/"@ =~= root_text());
        assert(seg_views(c@).last() == c@[n - 1]@);
        assert(seg_views(c@).drop_last() =~= seg_views(c@).take(n - 1));
    }
    if str_equal(c[n - 1].as_str(), "/") {
        None
    } else {
        Some(path_from_components(&c, n - 1))
    }
}

/// Whether the first `cb.len()` texts of `cp` are those of `cb`.
fn parts_prefix(cp: &Vec<String>, cb: &Vec<String>) -> (b: bool)
    ensures
        b == (cb@.len() <= cp@.len() && seg_views(cp@).take(cb@.len() as int) == seg_views(cb@)),
{
    if cb.len() > cp.len() {
        return false;
    }
    let mut i: usize = 0;
    while i < cb.len()
        invariant
            cb@.len() <= cp@.len(),
            i <= cb@.len(),
            forall|j: int| 0 <= j < i ==> cp@[j]@ == cb@[j]@,
        decreases cb@.len() - i,
    {
        if !str_equal(cp[i].as_str(), cb[i].as_str()) {
            proof {
                assert(seg_views(cp@).take(cb@.len() as int)[i as int] != seg_views(cb@)[i as int]);
            }
            return false;
        }
        i = i + 1;
    }
    assert(seg_views(cp@).take(cb@.len() as int) =~= seg_views(cb@));
    true
}

/// `Path::starts_with`: whether the components of `base` begin those of `p`.
pub fn starts_with(p: &str, base: &str) -> (b: bool)
    ensures
        b == starts_with_spec(p@, base@),
{
    let cp = path_components(p);
    let cb = path_components(base);
    parts_prefix(&cp, &cb)
}

/// The first component of `p` below `base`, when `p` lies strictly under `base`.
pub fn component_after(p: &str, base: &str) -> (r: Option<String>)
    ensures
        r matches Some(s) ==> component_after_spec(p@, base@) == Some(s@),
        r is None ==> component_after_spec(p@, base@) is None,
{
    let cp = path_components(p);
    let cb = path_components(base);
    if parts_prefix(&cp, &cb) && cb.len() < cp.len() {
        proof {
            assert(seg_views(cp@)[cb@.len() as int] == cp@[cb@.len() as int]@);
        }
        Some(cp[cb.len()].clone())
    } else {
        None
    }
}

/// The main repository root for a git worktree whose canonical `gitdir` is given:
/// the parent of the nearest ancestor named `.git`.
pub fn main_repo_from_gitdir(gitdir: &str) -> (r: Option<String>)
    ensures
        r matches Some(s) ==> main_repo_from_gitdir_spec(gitdir@) == Some(s@),
        r is None ==> main_repo_from_gitdir_spec(gitdir@) is None,
{
    let c = path_components(gitdir);
    let ghost cv = seg_views(c@);
    let mut n = c.len();
    proof {
        assert(cv.take(n as int) =~= cv);
    }
    while n > 0
        invariant
            n <= c@.len(),
            cv == seg_views(c@),
            cv == components(gitdir@),
            before_last_git(cv) == before_last_git(cv.take(n as int)),
        decreases n,
    {
        proof {
            assert(cv.take(n as int).last() == c@[n - 1]@);
            assert(cv.take(n as int).drop_last() =~= cv.take(n - 1));
        }
        if str_equal(c[n - 1].as_str(), ".git") {
            proof {
                assert(cv.take(n as int).len() > 0);
                assert(before_last_git(cv.take(n as int)) == Some(cv.take(n - 1)));
                assert(cv == components(gitdir@));
                assert(main_repo_from_gitdir_spec(gitdir@) == Some(path_of(cv.take(n - 1))));
            }
            let r = path_from_components(&c, n - 1);
            return Some(r);
        }
        n = n - 1;
    }
    None
}

/// The main repository root for a jj workspace whose `.jj/repo` resolves to the
/// canonical path `target`: the parent of the `.jj` directory holding `repo`.
pub fn main_repo_from_jj_repo(target: &str) -> (r: Option<String>)
    ensures
        r matches Some(s) ==> main_repo_from_jj_spec(target@) == Some(s@),
        r is None ==> main_repo_from_jj_spec(target@) is None,
{
    let c = path_components(target);
    let n = c.len();
    if n < 2 {
        return None;
    }
    proof {
        reveal_strlit("/");
        assert("/"@ =~= root_text());
        assert(seg_views(c@).last() == c@[n - 1]@);
        assert(seg_views(c@)[n - 2] == c@[n - 2]@);
    }
    if !str_equal(c[n - 1].as_str(), "/") && str_equal(c[n - 2].as_str(), ".jj") {
        Some(path_from_components(&c, n - 2))
    } else {
        None
    }
}

/// A component sequence as `components` produces it: the root or `.` only in
/// the first place, every other component a non-empty name (or `..`) without `/`.
pub open spec fn wf_components(c: Seq<Seq<char>>) -> bool {
    forall|i: int|
        0 <= i < c.len() ==> if #[trigger] c[i] == root_text() || c[i] == cur_text() {
            i == 0
        } else {
            c[i].len() > 0 && !c[i].contains('/')
        }
}

proof fn lemma_join_first(c: Seq<Seq<char>>)
    requires
        c.len() >= 1,
    ensures
        join_parts(c).len() >= c[0].len(),
        forall|k: int| 0 <= k < c[0].len() ==> join_parts(c)[k] == c[0][k],
    decreases c.len(),
{
    if c.len() > 1 {
        lemma_join_first(c.drop_last());
        assert(c.drop_last()[0] == c[0]);
    }
}

proof fn lemma_split_join(parts: Seq<Seq<char>>)
    requires
        parts.len() >= 1,
        forall|i: int| 0 <= i < parts.len() ==> !(#[trigger] parts[i]).contains('/'),
    ensures
        split_on(join_parts(parts), '/') == parts,
    decreases parts.len(),
{
    if parts.len() == 1 {
        lemma_split_without_sep(parts[0], '/');
        assert(seq![parts[0]] =~= parts);
    } else {
        let dl = parts.drop_last();
        assert(forall|i: int| 0 <= i < dl.len() ==> !(#[trigger] dl[i]).contains('/')) by {
            assert forall|i: int| 0 <= i < dl.len() implies !(#[trigger] dl[i]).contains('/') by {
                assert(dl[i] == parts[i]);
            }
        }
        lemma_split_join(dl);
        lemma_split_at_last_sep(join_parts(dl), parts.last(), '/');
        assert(dl.push(parts.last()) =~= parts);
    }
}

proof fn lemma_kept_identity(segs: Seq<Seq<char>>)
    requires
        forall|i: int| 0 <= i < segs.len() ==> (#[trigger] segs[i]).len() > 0 && segs[i] != cur_text(),
    ensures
        kept_segments(segs) == segs,
    decreases segs.len(),
{
    if segs.len() > 0 {
        let rest = segs.drop_first();
        assert forall|i: int| 0 <= i < rest.len() implies (#[trigger] rest[i]).len() > 0 && rest[i] != cur_text() by {
            assert(rest[i] == segs[i + 1]);
        }
        lemma_kept_identity(rest);
        assert(segs[0].len() > 0 && segs[0] != cur_text());
        assert(seq![segs[0]] + rest =~= segs);
    }
}

proof fn lemma_kept_elements(segs: Seq<Seq<char>>)
    ensures
        forall|i: int|
            0 <= i < kept_segments(segs).len() ==> (#[trigger] kept_segments(segs)[i]).len() > 0
                && kept_segments(segs)[i] != cur_text() && segs.contains(kept_segments(segs)[i]),
    decreases segs.len(),
{
    if segs.len() > 0 {
        let rest = segs.drop_first();
        lemma_kept_elements(rest);
        assert forall|i: int| 0 <= i < kept_segments(segs).len() implies (#[trigger] kept_segments(segs)[i]).len() > 0
            && kept_segments(segs)[i] != cur_text() && segs.contains(kept_segments(segs)[i]) by {
            let k = kept_segments(segs);
            let kr = kept_segments(rest);
            if segs[0].len() == 0 || segs[0] == cur_text() {
                assert(k[i] == kr[i]);
                let j = choose|j: int| 0 <= j < rest.len() && rest[j] == kr[i];
                assert(segs[j + 1] == kr[i]);
            } else if i == 0 {
                assert(k[0] == segs[0]);
            } else {
                assert(k[i] == kr[i - 1]);
                let j = choose|j: int| 0 <= j < rest.len() && rest[j] == kr[i - 1];
                assert(segs[j + 1] == kr[i - 1]);
            }
        }
    }
}

/// The components of any path are well formed.
pub proof fn lemma_components_wf(p: Seq<char>)
    ensures
        wf_components(components(p)),
{
    let segs = split_on(p, '/');
    lemma_split_on_nonempty(p, '/');
    lemma_split_pieces_without_sep(p, '/');
    lemma_kept_elements(segs);
    let c = components(p);
    let kept = kept_segments(segs);
    let front = c.len() - kept.len();
    assert(front <= 1);
    assert forall|i: int| 0 <= i < c.len() implies (if #[trigger] c[i] == root_text() || c[i] == cur_text() {
        i == 0
    } else {
        c[i].len() > 0 && !c[i].contains('/')
    }) by {
        if i >= front {
            let x = kept[i - front];
            assert(c[i] == x);
            let j = choose|j: int| 0 <= j < segs.len() && segs[j] == x;
            assert(!segs[j].contains('/'));
            if x == root_text() {
                assert(x[0] == '/');
                assert(x.contains('/'));
            }
        }
    }
}

/// Writing a well-formed component sequence as a path and reading it back
/// gives the same components.
pub proof fn lemma_components_of_path(c: Seq<Seq<char>>)
    requires
        wf_components(c),
    ensures
        components(path_of(c)) == c,
{
    if c.len() == 0 {
        let p = path_of(c);
        assert(p =~= Seq::<char>::empty());
        let segs = seq![Seq::<char>::empty()];
        assert(split_on(p, '/') =~= segs);
        assert(segs.drop_first() =~= Seq::<Seq<char>>::empty());
        assert(kept_segments(segs) == kept_segments(segs.drop_first()));
        assert(kept_segments(segs) =~= Seq::<Seq<char>>::empty());
        assert(segs[0] != cur_text()) by {
            assert(segs[0].len() != cur_text().len());
        }
        assert(components(p) =~= c);
    } else if c[0] == root_text() {
        let rest = c.drop_first();
        let p = path_of(c);
        assert(p == root_text() + join_parts(rest));
        assert(p[0] == '/');
        assert(p.drop_first() =~= join_parts(rest));
        assert(split_on(p, '/') == seq![Seq::<char>::empty()] + split_on(join_parts(rest), '/'));
        assert forall|i: int| 0 <= i < rest.len() implies (#[trigger] rest[i]).len() > 0 && rest[i] != cur_text()
            && !rest[i].contains('/') by {
            assert(rest[i] == c[i + 1]);
        }
        if rest.len() == 0 {
            assert(join_parts(rest) =~= Seq::<char>::empty());
            assert(split_on(join_parts(rest), '/') =~= seq![Seq::<char>::empty()]);
            let segs = seq![Seq::<char>::empty(), Seq::<char>::empty()];
            assert(split_on(p, '/') =~= segs);
            assert(segs.drop_first() =~= seq![Seq::<char>::empty()]);
            assert(segs.drop_first().drop_first() =~= Seq::<Seq<char>>::empty());
            assert(kept_segments(segs.drop_first()) == kept_segments(segs.drop_first().drop_first()));
            assert(kept_segments(segs) == kept_segments(segs.drop_first()));
            assert(kept_segments(segs) =~= Seq::<Seq<char>>::empty());
            assert(rest =~= Seq::<Seq<char>>::empty());
            assert(seq![root_text()] =~= c);
            assert(components(p) =~= c);
        } else {
            lemma_split_join(rest);
            lemma_kept_identity(rest);
            assert((seq![Seq::<char>::empty()] + rest).drop_first() =~= rest);
            assert(kept_segments(seq![Seq::<char>::empty()] + rest) == kept_segments(rest));
            assert(components(p) =~= c);
        }
    } else {
        let p = path_of(c);
        assert(p == join_parts(c));
        assert forall|i: int| 0 <= i < c.len() implies !(#[trigger] c[i]).contains('/') by {
            if c[i] == cur_text() {
                assert(c[i][0] == '.');
                if c[i].contains('/') {
                    let k = choose|k: int| 0 <= k < c[i].len() && c[i][k] == '/';
                    assert(c[i].len() == 1);
                }
            }
        }
        lemma_split_join(c);
        lemma_join_first(c);
        assert(c[0].len() > 0) by {
            if c[0] == cur_text() {
            }
        }
        assert(p[0] == c[0][0]);
        assert(!has_root(p)) by {
            if p[0] == '/' {
                assert(c[0].contains('/'));
            }
        }
        let rest = c.drop_first();
        assert forall|i: int| 0 <= i < rest.len() implies (#[trigger] rest[i]).len() > 0 && rest[i] != cur_text() by {
            assert(rest[i] == c[i + 1]);
        }
        lemma_kept_identity(rest);
        if c[0] == cur_text() {
            assert(kept_segments(c) == kept_segments(rest));
            assert(seq![cur_text()] + rest =~= c);
            assert(components(p) =~= c);
        } else {
            assert(kept_segments(c) == seq![c[0]] + kept_segments(rest));
            assert(seq![c[0]] + rest =~= c);
            assert(components(p) =~= c);
        }
    }
}

/// The parent of a path has the path's components without the last one.
pub proof fn lemma_parent_components(p: Seq<char>)
    requires
        parent_spec(p) is Some,
    ensures
        components(parent_spec(p)->Some_0) == components(p).drop_last(),
{
    let c = components(p);
    lemma_components_wf(p);
    assert(wf_components(c.drop_last())) by {
        assert forall|i: int| 0 <= i < c.drop_last().len() implies (if #[trigger] c.drop_last()[i] == root_text()
            || c.drop_last()[i] == cur_text() {
            i == 0
        } else {
            c.drop_last()[i].len() > 0 && !c.drop_last()[i].contains('/')
        }) by {
            assert(c.drop_last()[i] == c[i]);
        }
    }
    lemma_components_of_path(c.drop_last());
}

} // verus!
