use vstd::prelude::*;

use crate::error::FsError;

verus! {

/// The character views of a sequence of strings.
pub open spec fn views(v: Seq<String>) -> Seq<Seq<char>> {
    v.map_values(|s: String| s@)
}

/// An optional string, seen through its view.
pub open spec fn opt_view(o: Option<&str>) -> Option<Seq<char>> {
    match o {
        Some(s) => Some(s@),
        None => None,
    }
}

/// A result carrying a string, seen through the string's view.
pub open spec fn result_view(r: Result<String, FsError>) -> Result<Seq<char>, FsError> {
    match r {
        Ok(s) => Ok(s@),
        Err(e) => Err(e),
    }
}

/// The pieces of `s` between separators, `/` splitting `s` into one more piece
/// than it holds separators.
pub open spec fn segments(s: Seq<char>) -> Seq<Seq<char>>
    decreases s.len(),
{
    if s.len() == 0 {
        seq![Seq::empty()]
    } else {
        let prev = segments(s.drop_last());
        if s.last() == '/' {
            prev.push(Seq::empty())
        } else {
            prev.update(prev.len() - 1, prev.last().push(s.last()))
        }
    }
}

/// The effect of one segment on the components resolved so far: empty and `.`
/// segments change nothing, `..` climbs one level (never above the root).
pub open spec fn step(c: Seq<Seq<char>>, seg: Seq<char>) -> Seq<Seq<char>> {
    if seg.len() == 0 || seg == seq!['.'] {
        c
    } else if seg == seq!['.', '.'] {
        if c.len() == 0 {
            c
        } else {
            c.drop_last()
        }
    } else {
        c.push(seg)
    }
}

/// Resolves a sequence of segments from left to right.
pub open spec fn resolve(segs: Seq<Seq<char>>) -> Seq<Seq<char>>
    decreases segs.len(),
{
    if segs.len() == 0 {
        Seq::empty()
    } else {
        step(resolve(segs.drop_last()), segs.last())
    }
}

/// The components of an absolute path once `.`, `..` and repeated separators
/// are resolved.
pub open spec fn components(p: Seq<char>) -> Seq<Seq<char>> {
    resolve(segments(p))
}

/// `/c0/c1/.../cn`.
pub open spec fn join_tail(c: Seq<Seq<char>>) -> Seq<char>
    decreases c.len(),
{
    if c.len() == 0 {
        Seq::empty()
    } else {
        join_tail(c.drop_last()).push('/') + c.last()
    }
}

/// The absolute path whose components are `c`; the root is `/`.
pub open spec fn render(c: Seq<Seq<char>>) -> Seq<char> {
    if c.len() == 0 {
        seq!['/']
    } else {
        join_tail(c)
    }
}

pub open spec fn is_absolute(p: Seq<char>) -> bool {
    p.len() > 0 && p[0] == '/'
}

/// `c` lies at or beneath `r`.
pub open spec fn within(c: Seq<Seq<char>>, r: Seq<Seq<char>>) -> bool {
    r.len() <= c.len() && c.subrange(0, r.len() as int) == r
}

/// A path component that names an entry: not empty, not `.` or `..`, no separator.
pub open spec fn is_name(seg: Seq<char>) -> bool {
    &&& seg.len() > 0
    &&& seg != seq!['.']
    &&& seg != seq!['.', '.']
    &&& !seg.contains('/')
}

pub open spec fn all_names(c: Seq<Seq<char>>) -> bool {
    forall|i: int| 0 <= i < c.len() ==> is_name(#[trigger] c[i])
}

/// What validating `p` against an optional sandbox root gives.
pub open spec fn validate_spec(p: Seq<char>, root: Option<Seq<char>>) -> Result<Seq<char>, FsError> {
    if !is_absolute(p) {
        Err(FsError::InvalidPath)
    } else {
        match root {
            None => Ok(render(components(p))),
            Some(r) => if !is_absolute(r) {
                Err(FsError::InvalidPath)
            } else if within(components(p), components(r)) {
                Ok(render(components(p)))
            } else {
                Err(FsError::PathEscape)
            },
        }
    }
}

/// A file name that can be joined under a directory without leaving it.
pub open spec fn is_plain_name(n: Seq<char>) -> bool {
    &&& is_name(n)
    &&& !n.contains('\\')
}

/// Whether `s` begins with the separator.
fn starts_at_root(s: &str) -> (b: bool)
    ensures
        b == is_absolute(s@),
{
    s.unicode_len() > 0 && s.get_char(0) == '/'
}

/// Applies one segment to the components resolved so far.
fn apply_segment(comps: &mut Vec<String>, seg: &str)
    ensures
        views(final(comps)@) == step(views(old(comps)@), seg@),
{
    let n = seg.unicode_len();
    if n == 0 {
        return ;
    }
    if n == 1 && seg.get_char(0) == '.' {
        assert(seg@ =~= seq!['.']);
        return ;
    }
    if n == 2 && seg.get_char(0) == '.' && seg.get_char(1) == '.' {
        assert(seg@ =~= seq!['.', '.']);
        if comps.len() > 0 {
            comps.pop();
            assert(views(comps@) =~= views(old(comps)@).drop_last());
        }
        return ;
    }
    assert(seg@ != seq!['.']) by {
        if seg@ == seq!['.'] {
            assert(seg@[0] == '.');
        }
    }
    assert(seg@ != seq!['.', '.']) by {
        if seg@ == seq!['.', '.'] {
            assert(seg@[0] == '.' && seg@[1] == '.');
        }
    }
    comps.push(String::from_str(seg));
    assert(views(comps@) =~= views(old(comps)@).push(seg@));
}

/// The components of `path`, with `.`, `..` and repeated separators resolved.
pub fn path_components(path: &str) -> (r: Vec<String>)
    ensures
        views(r@) == components(path@),
{
    let n = path.unicode_len();
    let mut comps: Vec<String> = Vec::new();
    let mut start: usize = 0;
    let mut i: usize = 0;
    assert(path@.take(0) =~= Seq::<char>::empty());
    assert(views(comps@) =~= Seq::<Seq<char>>::empty());
    while i < n
        invariant
            n == path@.len(),
            start <= i <= n,
            segments(path@.take(i as int)).len() >= 1,
            segments(path@.take(i as int)).last() == path@.subrange(start as int, i as int),
            resolve(segments(path@.take(i as int)).drop_last()) == views(comps@),
        decreases n - i,
    {
        let c = path.get_char(i);
        let ghost segs = segments(path@.take(i as int));
        assert(path@.take(i + 1).drop_last() =~= path@.take(i as int));
        if c == '/' {
            let seg = path.substring_char(start, i);
            apply_segment(&mut comps, seg);
            assert(segments(path@.take(i + 1)).drop_last() =~= segs);
            assert(path@.subrange(i + 1, i + 1) =~= Seq::<char>::empty());
            start = i + 1;
        } else {
            assert(segments(path@.take(i + 1)).drop_last() =~= segs.drop_last());
            assert(path@.subrange(start as int, i + 1) =~= path@.subrange(start as int, i as int).push(
                c,
            ));
        }
        i = i + 1;
    }
    assert(path@.take(n as int) =~= path@);
    let seg = path.substring_char(start, n);
    apply_segment(&mut comps, seg);
    comps
}

/// The absolute path made of `comps`.
pub fn render_path(comps: &Vec<String>) -> (r: String)
    ensures
        r@ == render(views(comps@)),
{
    proof {
        reveal_strlit("/");
    }
    if comps.len() == 0 {
        let r = String::from_str("/");
        assert(r@ =~= seq!['/']);
        return r;
    }
    let mut out = String::new();
    let mut i: usize = 0;
    assert(views(comps@).take(0) =~= Seq::<Seq<char>>::empty());
    while i < comps.len()
        invariant
            i <= comps.len(),
            out@ == join_tail(views(comps@).take(i as int)),
        decreases comps.len() - i,
    {
        let ghost before = out@;
        proof {
            reveal_strlit("/");
        }
        assert("/"@ =~= seq!['/']);
        out.append("/");
        out.append(comps[i].as_str());
        assert(views(comps@).take(i + 1).drop_last() =~= views(comps@).take(i as int));
        assert(before + seq!['/'] =~= before.push('/'));
        assert(views(comps@).take(i + 1).last() == comps@[i as int]@);
        i = i + 1;
    }
    assert(views(comps@).take(comps.len() as int) =~= views(comps@));
    out
}

/// Whether the components `c` lie at or beneath the components `r`.
fn is_within(c: &Vec<String>, r: &Vec<String>) -> (b: bool)
    ensures
        b == within(views(c@), views(r@)),
{
    if r.len() > c.len() {
        return false;
    }
    let mut j: usize = 0;
    while j < r.len()
        invariant
            j <= r.len() <= c.len(),
            forall|k: int| 0 <= k < j ==> c@[k]@ == r@[k]@,
        decreases r.len() - j,
    {
        if c[j] != r[j] {
            assert(views(c@).subrange(0, r.len() as int)[j as int] != views(r@)[j as int]);
            return false;
        }
        j = j + 1;
    }
    assert(views(c@).subrange(0, r.len() as int) =~= views(r@));
    true
}

/// Resolves `path` and, when a sandbox root is given, checks that the result
/// lies at or beneath it. Returns the resolved absolute path.
pub fn validate(path: &str, root: Option<&str>) -> (r: Result<String, FsError>)
    ensures
        result_view(r) == validate_spec(path@, opt_view(root)),
{
    if !starts_at_root(path) {
        return Err(FsError::InvalidPath);
    }
    let comps = path_components(path);
    match root {
        None => Ok(render_path(&comps)),
        Some(rt) => {
            if !starts_at_root(rt) {
                return Err(FsError::InvalidPath);
            }
            let rc = path_components(rt);
            if is_within(&comps, &rc) {
                Ok(render_path(&comps))
            } else {
                Err(FsError::PathEscape)
            }
        },
    }
}

/// Whether `n` can be joined under a directory as a single entry name.
pub fn plain_name(n: &str) -> (b: bool)
    ensures
        b == is_plain_name(n@),
{
    let len = n.unicode_len();
    if len == 0 {
        return false;
    }
    if len == 1 && n.get_char(0) == '.' {
        assert(n@ =~= seq!['.']);
        return false;
    }
    if len == 2 && n.get_char(0) == '.' && n.get_char(1) == '.' {
        assert(n@ =~= seq!['.', '.']);
        return false;
    }
    let mut i: usize = 0;
    while i < len
        invariant
            len == n@.len(),
            i <= len,
            forall|k: int| 0 <= k < i ==> n@[k] != '/' && n@[k] != '\\',
        decreases len - i,
    {
        let c = n.get_char(i);
        if c == '/' || c == '\\' {
            assert(n@.contains(c));
            return false;
        }
        i = i + 1;
    }
    assert(n@ != seq!['.']) by {
        if n@ == seq!['.'] {
            assert(n@[0] == '.');
        }
    }
    assert(n@ != seq!['.', '.']) by {
        if n@ == seq!['.', '.'] {
            assert(n@[0] == '.' && n@[1] == '.');
        }
    }
    true
}

/// Joins the entry name `name` under `base` and validates the result. A name
/// holding a separator, or that is empty, `.` or `..`, is refused before any
/// joining.
pub fn safe_join(base: &str, name: &str, root: Option<&str>) -> (r: Result<String, FsError>)
    ensures
        !is_plain_name(name@) ==> r == Err::<String, FsError>(FsError::InvalidPath),
        is_plain_name(name@) ==> result_view(r) == validate_spec(
            base@ + seq!['/'] + name@,
            opt_view(root),
        ),
{
    if !plain_name(name) {
        return Err(FsError::InvalidPath);
    }
    proof {
        reveal_strlit("/");
    }
    let mut joined = String::from_str(base);
    joined.append("/");
    joined.append(name);
    assert("/"@ =~= seq!['/']);
    validate(joined.as_str(), root)
}

proof fn lemma_segments_len(s: Seq<char>)
    ensures
        segments(s).len() >= 1,
    decreases s.len(),
{
    if s.len() > 0 {
        lemma_segments_len(s.drop_last());
    }
}

proof fn lemma_segments_no_separator(s: Seq<char>)
    ensures
        forall|i: int| 0 <= i < segments(s).len() ==> !(#[trigger] segments(s)[i]).contains('/'),
    decreases s.len(),
{
    if s.len() > 0 {
        let prev = segments(s.drop_last());
        lemma_segments_no_separator(s.drop_last());
        lemma_segments_len(s.drop_last());
        if s.last() != '/' {
            let w = prev.last().push(s.last());
            assert(!w.contains('/')) by {
                if w.contains('/') {
                    let k = choose|k: int| 0 <= k < w.len() && w[k] == '/';
                    assert(prev.last()[k] == '/');
                    assert(prev[prev.len() - 1].contains('/'));
                }
            }
        }
    }
}

proof fn lemma_resolve_names(segs: Seq<Seq<char>>)
    requires
        forall|i: int| 0 <= i < segs.len() ==> !(#[trigger] segs[i]).contains('/'),
    ensures
        all_names(resolve(segs)),
    decreases segs.len(),
{
    if segs.len() > 0 {
        let prev = segs.drop_last();
        assert forall|i: int| 0 <= i < prev.len() implies !(#[trigger] prev[i]).contains('/') by {
            assert(prev[i] == segs[i]);
        }
        lemma_resolve_names(prev);
        assert(!segs[segs.len() - 1].contains('/'));
    }
}

proof fn lemma_segments_append_word(s: Seq<char>, w: Seq<char>)
    requires
        !w.contains('/'),
    ensures
        segments(s + w) == segments(s).update(
            segments(s).len() - 1,
            segments(s).last() + w,
        ),
    decreases w.len(),
{
    lemma_segments_len(s);
    let segs = segments(s);
    if w.len() == 0 {
        assert(s + w =~= s);
        assert(segs.last() + w =~= segs.last());
        assert(segs.update(segs.len() - 1, segs.last()) =~= segs);
    } else {
        let w0 = w.drop_last();
        assert(!w0.contains('/')) by {
            if w0.contains('/') {
                let k = choose|k: int| 0 <= k < w0.len() && w0[k] == '/';
                assert(w[k] == '/');
            }
        }
        assert(w.last() != '/') by {
            if w.last() == '/' {
                assert(w[w.len() - 1] == '/');
            }
        }
        lemma_segments_append_word(s, w0);
        assert((s + w).drop_last() =~= s + w0);
        assert((s + w).last() == w.last());
        assert((segs.last() + w0).push(w.last()) =~= segs.last() + w);
        assert(segments(s + w) =~= segs.update(segs.len() - 1, segs.last() + w));
    }
}

proof fn lemma_segments_join(c: Seq<Seq<char>>)
    requires
        all_names(c),
    ensures
        segments(join_tail(c)) == seq![Seq::<char>::empty()] + c,
    decreases c.len(),
{
    if c.len() == 0 {
        assert(segments(Seq::<char>::empty()) == seq![Seq::<char>::empty()]);
        assert(seq![Seq::<char>::empty()] + c =~= seq![Seq::<char>::empty()]);
    } else {
        let c0 = c.drop_last();
        assert(all_names(c0)) by {
            assert forall|i: int| 0 <= i < c0.len() implies is_name(#[trigger] c0[i]) by {
                assert(c0[i] == c[i]);
            }
        }
        lemma_segments_join(c0);
        let t = join_tail(c0).push('/');
        assert(t.drop_last() =~= join_tail(c0));
        assert(segments(t) == segments(join_tail(c0)).push(Seq::<char>::empty()));
        assert(is_name(c[c.len() - 1]));
        lemma_segments_append_word(t, c.last());
        assert(Seq::<char>::empty() + c.last() =~= c.last());
        assert(segments(join_tail(c)) =~= seq![Seq::<char>::empty()] + c);
    }
}

proof fn lemma_resolve_after_root(c: Seq<Seq<char>>)
    requires
        all_names(c),
    ensures
        resolve(seq![Seq::<char>::empty()] + c) == c,
    decreases c.len(),
{
    let e = Seq::<char>::empty();
    if c.len() == 0 {
        assert(seq![e] + c =~= seq![e]);
        assert(seq![e].drop_last() =~= Seq::<Seq<char>>::empty());
        assert(resolve(seq![e]) == step(resolve(Seq::<Seq<char>>::empty()), e));
        assert(resolve(seq![e]) =~= c);
    } else {
        let c0 = c.drop_last();
        assert(all_names(c0)) by {
            assert forall|i: int| 0 <= i < c0.len() implies is_name(#[trigger] c0[i]) by {
                assert(c0[i] == c[i]);
            }
        }
        lemma_resolve_after_root(c0);
        assert((seq![e] + c).drop_last() =~= seq![e] + c0);
        assert((seq![e] + c).last() == c.last());
        assert(is_name(c[c.len() - 1]));
        assert(c0.push(c.last()) =~= c);
    }
}

proof fn lemma_join_tail_absolute(c: Seq<Seq<char>>)
    requires
        c.len() > 0,
    ensures
        is_absolute(join_tail(c)),
    decreases c.len(),
{
    let c0 = c.drop_last();
    if c0.len() > 0 {
        lemma_join_tail_absolute(c0);
    }
    assert((join_tail(c0).push('/') + c.last())[0] == join_tail(c0).push('/')[0]);
}

/// Rendering resolved components and resolving them again gives them back.
proof fn lemma_components_of_render(c: Seq<Seq<char>>)
    requires
        all_names(c),
    ensures
        is_absolute(render(c)),
        components(render(c)) == c,
{
    if c.len() == 0 {
        let e = Seq::<char>::empty();
        let r = seq!['/'];
        assert(r.drop_last() =~= e);
        assert(segments(e) == seq![e]);
        assert(r.last() == '/');
        assert(segments(r) == seq![e].push(e));
        assert(seq![e].push(e).drop_last() =~= seq![e]);
        assert(seq![e].drop_last() =~= Seq::<Seq<char>>::empty());
        assert(resolve(Seq::<Seq<char>>::empty()) == Seq::<Seq<char>>::empty());
        assert(resolve(seq![e]) =~= Seq::<Seq<char>>::empty());
        assert(seq![e].push(e).last() == e);
        assert(components(render(c)) =~= c);
    } else {
        lemma_segments_join(c);
        lemma_resolve_after_root(c);
        lemma_join_tail_absolute(c);
    }
}

/// Resolution yields only entry names.
pub proof fn lemma_components_are_names(p: Seq<char>)
    ensures
        all_names(components(p)),
{
    lemma_segments_no_separator(p);
    lemma_resolve_names(segments(p));
}

/// Validation is idempotent: a path that validation accepted is accepted
/// again, unchanged, against the same sandbox root.
pub proof fn lemma_validate_idempotent(p: Seq<char>, root: Option<Seq<char>>)
    requires
        validate_spec(p, root) is Ok,
    ensures
        validate_spec(validate_spec(p, root)->Ok_0, root) == validate_spec(p, root),
{
    lemma_components_are_names(p);
    lemma_components_of_render(components(p));
}

/// Against a sandbox root, an absolute path is accepted exactly when it
/// resolves at or beneath the root, and refused as an escape otherwise.
pub proof fn lemma_sandbox_confines(p: Seq<char>, root: Seq<char>)
    requires
        is_absolute(p),
        is_absolute(root),
    ensures
        within(components(p), components(root)) ==> validate_spec(p, Some(root)) == Ok::<
            Seq<char>,
            FsError,
        >(render(components(p))),
        !within(components(p), components(root)) ==> validate_spec(p, Some(root)) == Err::<
            Seq<char>,
            FsError,
        >(FsError::PathEscape),
{
}

} // verus!
