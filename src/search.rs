//! The loader's DLL search order, and resolution of one DLL name against it.
use vstd::prelude::*;
use crate::order::{chars_eq, views};
use crate::text::{chars_of, lower_chars, lower_seq, string_of};

verus! {

/// Where the loader looks for a DLL.
pub struct SearchContext {
    pub app_dir: String,
    pub cwd: String,
    pub path_dirs: Vec<String>,
    pub safedll: bool,
    pub system_dir: String,
    pub windows_dir: String,
    pub system16_dir: Option<String>,
}

/// The outcome of probing one path, or of a whole resolution.
#[derive(Clone, Copy, Debug, PartialEq, Eq, Structural)]
pub enum ResolutionKind {
    Found,
    Missing,
    BadImage,
}

/// One probed path, numbered from 1, with `HIT`, `MISS` or `BAD_IMAGE`.
pub struct CandidateResult {
    pub order: usize,
    pub path: String,
    pub result: &'static str,
}

/// The result of resolving one DLL name.
pub struct Resolution {
    pub kind: ResolutionKind,
    pub chosen: Option<String>,
    pub candidates: Vec<CandidateResult>,
}

/// The token that reports a probe's outcome.
pub open spec fn token_of(k: ResolutionKind) -> Seq<char> {
    match k {
        ResolutionKind::Found => "HIT"@,
        ResolutionKind::Missing => "MISS"@,
        ResolutionKind::BadImage => "BAD_IMAGE"@,
    }
}

/// The three tokens differ.
pub proof fn lemma_tokens_distinct()
    ensures
        token_of(ResolutionKind::Found) != token_of(ResolutionKind::Missing),
        token_of(ResolutionKind::Found) != token_of(ResolutionKind::BadImage),
        token_of(ResolutionKind::Missing) != token_of(ResolutionKind::BadImage),
{
    reveal_strlit("HIT");
    reveal_strlit("MISS");
    reveal_strlit("BAD_IMAGE");
    assert("HIT"@[0] != "MISS"@[0]);
    assert("HIT"@[0] != "BAD_IMAGE"@[0]);
    assert("MISS"@[0] != "BAD_IMAGE"@[0]);
}

/// The token that reports a probe's outcome.
pub fn kind_token(k: ResolutionKind) -> (r: &'static str)
    ensures
        r@ == token_of(k),
{
    match k {
        ResolutionKind::Found => "HIT",
        ResolutionKind::Missing => "MISS",
        ResolutionKind::BadImage => "BAD_IMAGE",
    }
}

/// A path separator.
pub open spec fn is_sep(c: char) -> bool {
    c == '\\' || c == '/'
}

/// `name` under directory `root`.
pub open spec fn join_path(root: Seq<char>, name: Seq<char>) -> Seq<char> {
    if root.len() == 0 {
        name
    } else if is_sep(root.last()) {
        root + name
    } else {
        root + seq!['\\'] + name
    }
}

/// A drive-rooted path (`C:\...`) or a UNC or device path (`\\...`).
pub open spec fn is_absolute_path(s: Seq<char>) -> bool {
    ||| (s.len() >= 3 && (('a' <= s[0] && s[0] <= 'z') || ('A' <= s[0] && s[0] <= 'Z')) && s[1]
        == ':' && is_sep(s[2]))
    ||| (s.len() >= 2 && is_sep(s[0]) && is_sep(s[1]))
}

/// `cwd` as a root of its own: present only when it differs from the app
/// directory, ignoring ASCII case.
pub open spec fn cwd_part(c: &SearchContext) -> Seq<Seq<char>> {
    if lower_seq(c.cwd@) != lower_seq(c.app_dir@) {
        seq![c.cwd@]
    } else {
        Seq::empty()
    }
}

/// The 16-bit system directory, where there is one.
pub open spec fn system16_part(c: &SearchContext) -> Seq<Seq<char>> {
    match c.system16_dir {
        Some(d) => seq![d@],
        None => Seq::empty(),
    }
}

/// The roots in search order before duplicates are removed.
pub open spec fn candidate_roots(c: &SearchContext) -> Seq<Seq<char>> {
    let path = c.path_dirs@.map_values(|p: String| p@);
    if c.safedll {
        seq![c.app_dir@, c.system_dir@] + system16_part(c) + seq![c.windows_dir@] + cwd_part(c)
            + path
    } else {
        seq![c.app_dir@] + cwd_part(c) + seq![c.system_dir@] + system16_part(c) + seq![
            c.windows_dir@,
        ] + path
    }
}

/// `s` with every element dropped whose ASCII-lowercase form occurred earlier.
pub open spec fn dedup_ci(s: Seq<Seq<char>>) -> Seq<Seq<char>>
    decreases s.len(),
{
    if s.len() == 0 {
        Seq::empty()
    } else if s.drop_last().map_values(|x: Seq<char>| lower_seq(x)).contains(lower_seq(s.last())) {
        dedup_ci(s.drop_last())
    } else {
        dedup_ci(s.drop_last()).push(s.last())
    }
}

/// The roots searched for a DLL, in order.
pub open spec fn search_roots(c: &SearchContext) -> Seq<Seq<char>> {
    dedup_ci(candidate_roots(c))
}

/// The paths probed for `name`: the name alone when it is absolute, else the
/// name under each root.
pub open spec fn probe_paths(name: Seq<char>, c: &SearchContext) -> Seq<Seq<char>> {
    if is_absolute_path(name) {
        seq![name]
    } else {
        search_roots(c).map_values(|r: Seq<char>| join_path(r, name))
    }
}

/// The comparison form of a path: ASCII lowercase.
pub fn normalize_cmp(path: &str) -> (r: Vec<char>)
    ensures
        r@ == lower_seq(path@),
{
    let chars = chars_of(path);
    lower_chars(&chars)
}

/// Removes every path whose ASCII-lowercase form occurred earlier.
pub fn dedup_case_insensitive(paths: Vec<String>) -> (r: Vec<String>)
    ensures
        r@.map_values(|p: String| p@) == dedup_ci(paths@.map_values(|p: String| p@)),
{
    let ghost all = paths@.map_values(|p: String| p@);
    let mut out: Vec<String> = Vec::new();
    let mut seen: Vec<Vec<char>> = Vec::new();
    let mut i: usize = 0;
    while i < paths.len()
        invariant
            i <= paths.len(),
            all == paths@.map_values(|p: String| p@),
            out@.map_values(|p: String| p@) == dedup_ci(all.subrange(0, i as int)),
            views(seen@) == all.subrange(0, i as int).map_values(|x: Seq<char>| lower_seq(x)),
        decreases paths.len() - i,
    {
        let key = normalize_cmp(paths[i].as_str());
        let mut found = false;
        let mut j: usize = 0;
        while j < seen.len()
            invariant
                j <= seen.len(),
                found <==> exists|k: int| 0 <= k < j && seen@[k]@ == key@,
            decreases seen.len() - j,
        {
            if chars_eq(&seen[j], &key) {
                found = true;
            }
            j += 1;
        }
        let ghost pre = all.subrange(0, i + 1);
        proof {
            assert(pre.drop_last() == all.subrange(0, i as int));
            assert(pre.last() == paths@[i as int]@);
            let lows = pre.drop_last().map_values(|x: Seq<char>| lower_seq(x));
            if found {
                let k = choose|k: int| 0 <= k < j && seen@[k]@ == key@;
                assert(views(seen@)[k] == seen@[k]@);
                assert(lows[k] == key@);
            } else {
                if lows.contains(key@) {
                    let k = choose|k: int| 0 <= k < lows.len() && lows[k] == key@;
                    assert(views(seen@)[k] == seen@[k]@);
                }
            }
        }
        let ghost before = out@;
        let ghost key_view = key@;
        if !found {
            out.push(paths[i].clone());
            proof {
                assert(out@.map_values(|p: String| p@) =~= before.map_values(|p: String| p@).push(
                    paths@[i as int]@,
                ));
            }
        }
        let ghost seen_before = seen@;
        seen.push(key);
        proof {
            assert(views(seen@) =~= views(seen_before).push(key_view));
            assert(all.subrange(0, i + 1).map_values(|x: Seq<char>| lower_seq(x)) =~= all.subrange(
                0,
                i as int,
            ).map_values(|x: Seq<char>| lower_seq(x)).push(lower_seq(all[i as int])));
        }
        i += 1;
    }
    proof {
        assert(all.subrange(0, all.len() as int) == all);
    }
    out
}

fn push_strings(out: &mut Vec<String>, items: &Vec<String>)
    ensures
        final(out)@.map_values(|p: String| p@) == old(out)@.map_values(|p: String| p@)
            + items@.map_values(|p: String| p@),
{
    let ghost start = out@.map_values(|p: String| p@);
    let mut i: usize = 0;
    while i < items.len()
        invariant
            i <= items.len(),
            out@.map_values(|p: String| p@) == start + items@.map_values(|p: String| p@).subrange(
                0,
                i as int,
            ),
        decreases items.len() - i,
    {
        let ghost before = out@;
        out.push(items[i].clone());
        proof {
            assert(out@.map_values(|p: String| p@) =~= before.map_values(|p: String| p@).push(
                items@[i as int]@,
            ));
            assert(items@.map_values(|p: String| p@).subrange(0, i + 1) =~= items@.map_values(
                |p: String| p@,
            ).subrange(0, i as int).push(items@[i as int]@));
        }
        i += 1;
    }
    proof {
        assert(items@.map_values(|p: String| p@).subrange(0, items@.len() as int) =~= items@.map_values(
            |p: String| p@,
        ));
    }
}

impl SearchContext {
    /// The directories searched for a DLL, in order, without case-insensitive repeats.
    pub fn ordered_roots(&self) -> (r: Vec<String>)
        ensures
            r@.map_values(|p: String| p@) == search_roots(self),
    {
        let mut roots: Vec<String> = Vec::new();
        roots.push(self.app_dir.clone());
        let cwd_differs = !chars_eq(
            &normalize_cmp(self.cwd.as_str()),
            &normalize_cmp(self.app_dir.as_str()),
        );
        if self.safedll {
            roots.push(self.system_dir.clone());
            match &self.system16_dir {
                Some(s) => roots.push(s.clone()),
                None => {},
            }
            roots.push(self.windows_dir.clone());
            if cwd_differs {
                roots.push(self.cwd.clone());
            }
        } else {
            if cwd_differs {
                roots.push(self.cwd.clone());
            }
            roots.push(self.system_dir.clone());
            match &self.system16_dir {
                Some(s) => roots.push(s.clone()),
                None => {},
            }
            roots.push(self.windows_dir.clone());
        }
        let ghost head = roots@.map_values(|p: String| p@);
        push_strings(&mut roots, &self.path_dirs);
        proof {
            let path = self.path_dirs@.map_values(|p: String| p@);
            if self.safedll {
                assert(head =~= seq![self.app_dir@, self.system_dir@] + system16_part(self) + seq![
                    self.windows_dir@,
                ] + cwd_part(self));
            } else {
                assert(head =~= seq![self.app_dir@] + cwd_part(self) + seq![self.system_dir@]
                    + system16_part(self) + seq![self.windows_dir@]);
            }
            assert(roots@.map_values(|p: String| p@) =~= candidate_roots(self));
        }
        dedup_case_insensitive(roots)
    }
}

} // verus!

verus! {

impl Resolution {
    /// Candidates are numbered 1, 2, ... in probe order, each carries one of the
    /// three tokens, and only the last one can be a `HIT` or `BAD_IMAGE`.
    pub open spec fn wf(&self) -> bool {
        &&& forall|i: int|
            0 <= i < self.candidates@.len() ==> #[trigger] self.candidates@[i].order == i + 1
        &&& forall|i: int|
            0 <= i < self.candidates@.len() ==> {
                let t = #[trigger] self.candidates@[i].result@;
                t == token_of(ResolutionKind::Found) || t == token_of(ResolutionKind::Missing) || t
                    == token_of(ResolutionKind::BadImage)
            }
        &&& forall|i: int|
            0 <= i < self.candidates@.len() - 1 ==> #[trigger] self.candidates@[i].result@
                == token_of(ResolutionKind::Missing)
    }
}

/// `r` is what probing `paths` in order with `classify` gives: each probed path
/// with the token of what `classify` answered for it, stopping after the first
/// `HIT` or `BAD_IMAGE`; the kind and chosen path are those of that last probe.
pub open spec fn probed_in_order<F: Fn(&str) -> ResolutionKind>(
    r: &Resolution,
    paths: Seq<Seq<char>>,
    classify: F,
) -> bool {
    let n = r.candidates@.len();
    &&& r.wf()
    &&& n <= paths.len()
    &&& forall|i: int|
        0 <= i < n ==> (#[trigger] r.candidates@[i]).path@ == paths[i] && exists|
            p: &str,
            k: ResolutionKind,
        | p@ == paths[i] && #[trigger] classify.ensures((p,), k) && r.candidates@[i].result@
            == token_of(k)
    &&& (n == paths.len() || (n > 0 && r.candidates@[n - 1].result@ != token_of(
        ResolutionKind::Missing,
    )))
    &&& if n > 0 && r.candidates@[n - 1].result@ != token_of(ResolutionKind::Missing) {
        token_of(r.kind) == r.candidates@[n - 1].result@ && (r.chosen matches Some(c) && c@
            == paths[n - 1])
    } else {
        r.kind == ResolutionKind::Missing && r.chosen is None
    }
}

/// `name` under directory `root`.
pub fn join_dir(root: &str, name: &Vec<char>) -> (r: String)
    ensures
        r@ == join_path(root@, name@),
{
    let mut out = chars_of(root);
    if out.len() > 0 && !(out[out.len() - 1] == '\\' || out[out.len() - 1] == '/') {
        out.push('\\');
    }
    let mut i: usize = 0;
    let ghost start = out@;
    while i < name.len()
        invariant
            i <= name.len(),
            out@ == start + name@.subrange(0, i as int),
        decreases name.len() - i,
    {
        out.push(name[i]);
        proof {
            assert(name@.subrange(0, i + 1) == name@.subrange(0, i as int).push(name@[i as int]));
        }
        i += 1;
    }
    proof {
        assert(name@.subrange(0, name@.len() as int) == name@);
        assert(root@.len() > 0 ==> root@.last() == out@[root@.len() - 1] || start.len() == root@.len());
        if root@.len() == 0 {
            assert(out@ =~= name@);
        } else if is_sep(root@.last()) {
            assert(start == root@);
        } else {
            assert(start == root@.push('\\'));
            assert(out@ =~= root@ + seq!['\\'] + name@);
        }
    }
    string_of(&out)
}

/// `s` is drive-rooted (`C:\...`) or a UNC or device path (`\\...`).
pub fn is_absolute(s: &Vec<char>) -> (r: bool)
    ensures
        r == is_absolute_path(s@),
{
    let n = s.len();
    (n >= 3 && (('a' <= s[0] && s[0] <= 'z') || ('A' <= s[0] && s[0] <= 'Z')) && s[1] == ':' && (
    s[2] == '\\' || s[2] == '/')) || (n >= 2 && (s[0] == '\\' || s[0] == '/') && (s[1] == '\\'
        || s[1] == '/'))
}

/// Probes `paths` in order with `classify` until one is a `HIT` or a `BAD_IMAGE`.
fn probe_each<F: Fn(&str) -> ResolutionKind>(paths: Vec<String>, classify: F) -> (r: Resolution)
    requires
        forall|p: &str| classify.requires((p,)),
    ensures
        probed_in_order(&r, paths@.map_values(|p: String| p@), classify),
{
    let ghost ps = paths@.map_values(|p: String| p@);
    proof {
        lemma_tokens_distinct();
    }
    let mut candidates: Vec<CandidateResult> = Vec::new();
    let mut idx: usize = 0;
    while idx < paths.len()
        invariant
            idx <= paths.len(),
            ps == paths@.map_values(|p: String| p@),
            forall|p: &str| classify.requires((p,)),
            candidates@.len() == idx,
            forall|i: int| 0 <= i < idx ==> #[trigger] candidates@[i].order == i + 1,
            forall|i: int|
                0 <= i < idx ==> #[trigger] candidates@[i].result@ == token_of(
                    ResolutionKind::Missing,
                ),
            forall|i: int|
                0 <= i < idx ==> (#[trigger] candidates@[i]).path@ == ps[i] && exists|
                    p: &str,
                    k: ResolutionKind,
                | p@ == ps[i] && #[trigger] classify.ensures((p,), k) && candidates@[i].result@
                    == token_of(k),
        decreases paths.len() - idx,
    {
        let path = paths[idx].clone();
        let p_arg = path.as_str();
        let result = classify(p_arg);
        assert(p_arg@ == ps[idx as int]);
        let token = kind_token(result);
        let ghost old_c = candidates@;
        candidates.push(CandidateResult { order: idx + 1, path: path.clone(), result: token });
        proof {
            lemma_tokens_distinct();
            assert(classify.ensures((p_arg,), result));
            assert forall|i: int| 0 <= i < idx + 1 implies #[trigger] candidates@[i].order == i + 1 by {
                if i < idx {
                    assert(candidates@[i] == old_c[i]);
                }
            }
            assert forall|i: int| 0 <= i < idx implies #[trigger] candidates@[i].result@ == token_of(
                ResolutionKind::Missing,
            ) by {
                assert(candidates@[i] == old_c[i]);
            }
            assert forall|i: int| 0 <= i < idx + 1 implies {
                let t = #[trigger] candidates@[i].result@;
                t == token_of(ResolutionKind::Found) || t == token_of(ResolutionKind::Missing) || t
                    == token_of(ResolutionKind::BadImage)
            } by {
                if i < idx {
                    assert(candidates@[i] == old_c[i]);
                }
            }
            assert forall|i: int| 0 <= i < idx + 1 implies (#[trigger] candidates@[i]).path@ == ps[i]
                && exists|p: &str, k: ResolutionKind|
                    p@ == ps[i] && #[trigger] classify.ensures((p,), k) && candidates@[i].result@
                        == token_of(k) by {
                if i == idx {
                    assert(p_arg@ == ps[i] && classify.ensures((p_arg,), result)
                        && candidates@[i].result@ == token_of(result));
                } else {
                    assert(candidates@[i] == old_c[i]);
                    assert(old_c[i].path@ == ps[i]);
                }
            }
        }
        if result != ResolutionKind::Missing {
            let r = Resolution { kind: result, chosen: Some(path), candidates };
            assert(r.candidates@[idx as int].result@ == token_of(result));
            assert(token_of(result) != token_of(ResolutionKind::Missing));
            assert(r.wf());
            assert(forall|i: int| 0 <= i < r.candidates@.len() ==> (#[trigger] r.candidates@[i]).path@ == ps[i]);
            return r;
        }
        idx += 1;
    }
    Resolution { kind: ResolutionKind::Missing, chosen: None, candidates }
}

/// Resolves `dll_name` against the search order of `context`. `classify` tells
/// what is on disk at a path: nothing (`Missing`), a readable image (`Found`)
/// or something else (`BadImage`). An absolute name is probed alone.
pub fn resolve_dll<F: Fn(&str) -> ResolutionKind>(
    dll_name: &str,
    context: &SearchContext,
    classify: F,
) -> (r: Resolution)
    requires
        forall|p: &str| classify.requires((p,)),
    ensures
        probed_in_order(&r, probe_paths(dll_name@, context), classify),
{
    let name = chars_of(dll_name);
    if is_absolute(&name) {
        return resolve_absolute(dll_name, classify);
    }
    let roots = context.ordered_roots();
    let mut paths: Vec<String> = Vec::new();
    let mut i: usize = 0;
    while i < roots.len()
        invariant
            i <= roots.len(),
            name@ == dll_name@,
            roots@.map_values(|p: String| p@) == search_roots(context),
            paths@.map_values(|p: String| p@) == search_roots(context).subrange(
                0,
                i as int,
            ).map_values(|r: Seq<char>| join_path(r, dll_name@)),
        decreases roots.len() - i,
    {
        let p = join_dir(roots[i].as_str(), &name);
        let ghost before = paths@;
        paths.push(p);
        proof {
            assert(roots@.map_values(|p: String| p@)[i as int] == roots@[i as int]@);
            assert(paths@.map_values(|p: String| p@) =~= before.map_values(|p: String| p@).push(
                p@,
            ));
            assert(search_roots(context).subrange(0, i + 1) =~= search_roots(context).subrange(
                0,
                i as int,
            ).push(search_roots(context)[i as int]));
            assert(search_roots(context).subrange(0, i + 1).map_values(
                |r: Seq<char>| join_path(r, dll_name@),
            ) =~= search_roots(context).subrange(0, i as int).map_values(
                |r: Seq<char>| join_path(r, dll_name@),
            ).push(join_path(search_roots(context)[i as int], dll_name@)));
        }
        i += 1;
    }
    proof {
        assert(search_roots(context).subrange(0, roots@.len() as int) == search_roots(context));
    }
    probe_each(paths, classify)
}

/// Probes an absolute path alone.
fn resolve_absolute<F: Fn(&str) -> ResolutionKind>(path: &str, classify: F) -> (r: Resolution)
    requires
        forall|p: &str| classify.requires((p,)),
    ensures
        probed_in_order(&r, seq![path@], classify),
{
    let mut paths: Vec<String> = Vec::new();
    paths.push(path.to_owned());
    proof {
        assert(paths@.map_values(|p: String| p@) =~= seq![path@]);
    }
    probe_each(paths, classify)
}

} // verus!

verus! {

/// No two elements are equal ignoring ASCII case.
pub open spec fn distinct_ci(s: Seq<Seq<char>>) -> bool {
    forall|i: int, j: int|
        0 <= i < j < s.len() ==> lower_seq(#[trigger] s[i]) != lower_seq(#[trigger] s[j])
}

proof fn lemma_dedup_prefix(s: Seq<Seq<char>>, k: int)
    requires
        0 <= k <= s.len(),
    ensures
        dedup_ci(s.subrange(0, k)).len() <= dedup_ci(s).len(),
        dedup_ci(s).subrange(0, dedup_ci(s.subrange(0, k)).len() as int) == dedup_ci(
            s.subrange(0, k),
        ),
    decreases s.len(),
{
    if k == s.len() {
        assert(s.subrange(0, k) == s);
        assert(dedup_ci(s).subrange(0, dedup_ci(s).len() as int) == dedup_ci(s));
    } else {
        let t = s.drop_last();
        lemma_dedup_prefix(t, k);
        assert(t.subrange(0, k) == s.subrange(0, k));
        let a = dedup_ci(s.subrange(0, k));
        let dt = dedup_ci(t);
        assert(dedup_ci(s) == dt || dedup_ci(s) == dt.push(s.last()));
        assert(dedup_ci(s).subrange(0, a.len() as int) =~= dt.subrange(0, a.len() as int));
    }
}

proof fn lemma_dedup_distinct(s: Seq<Seq<char>>)
    requires
        distinct_ci(s),
    ensures
        dedup_ci(s) == s,
    decreases s.len(),
{
    if s.len() > 0 {
        let t = s.drop_last();
        assert(distinct_ci(t)) by {
            assert forall|i: int, j: int| 0 <= i < j < t.len() implies lower_seq(#[trigger] t[i])
                != lower_seq(#[trigger] t[j]) by {
                assert(t[i] == s[i] && t[j] == s[j]);
            }
        }
        lemma_dedup_distinct(t);
        let lows = t.map_values(|x: Seq<char>| lower_seq(x));
        if lows.contains(lower_seq(s.last())) {
            let i = choose|i: int| 0 <= i < lows.len() && lows[i] == lower_seq(s.last());
            assert(lower_seq(s[i]) == lower_seq(s[s.len() - 1]));
        }
        assert(t.push(s.last()) =~= s);
    }
}

/// The search order. The app directory always comes first. Under safe mode
/// the system directory comes next; otherwise a current directory that differs
/// from the app directory comes next. Where no two candidate roots are equal
/// ignoring ASCII case, the order is exactly: app, system, 16-bit system (if
/// any), Windows, current directory (if distinct), PATH under safe mode; app,
/// current directory (if distinct), system, 16-bit system, Windows, PATH
/// otherwise. A root equal to an earlier one ignoring case is dropped.
pub proof fn lemma_search_order(c: &SearchContext)
    ensures
        search_roots(c).len() >= 1,
        search_roots(c)[0] == c.app_dir@,
        c.safedll && lower_seq(c.system_dir@) != lower_seq(c.app_dir@) ==> search_roots(c)[1]
            == c.system_dir@,
        !c.safedll && lower_seq(c.cwd@) != lower_seq(c.app_dir@) ==> search_roots(c)[1] == c.cwd@,
        distinct_ci(candidate_roots(c)) ==> search_roots(c) == candidate_roots(c),
{
    let s = candidate_roots(c);
    assert(s[0] == c.app_dir@);
    lemma_dedup_prefix(s, 1);
    let p1 = s.subrange(0, 1);
    assert(p1.drop_last().len() == 0);
    assert(!p1.drop_last().map_values(|x: Seq<char>| lower_seq(x)).contains(lower_seq(p1.last())));
    assert(dedup_ci(p1.drop_last()) =~= Seq::<Seq<char>>::empty());
    assert(dedup_ci(p1) =~= seq![c.app_dir@]);
    assert(dedup_ci(s).subrange(0, 1)[0] == dedup_ci(s)[0]);
    if s.len() >= 2 && lower_seq(s[1]) != lower_seq(s[0]) {
        lemma_dedup_prefix(s, 2);
        let p2 = s.subrange(0, 2);
        assert(p2.drop_last() =~= p1);
        let lows = p2.drop_last().map_values(|x: Seq<char>| lower_seq(x));
        assert(lows =~= seq![lower_seq(s[0])]);
        assert(!lows.contains(lower_seq(p2.last())));
        assert(dedup_ci(p2) =~= seq![s[0], s[1]]);
        assert(dedup_ci(s).subrange(0, 2)[1] == dedup_ci(s)[1]);
    }
    if !c.safedll && lower_seq(c.cwd@) != lower_seq(c.app_dir@) {
        assert(s[1] == c.cwd@);
    }
    if distinct_ci(s) {
        lemma_dedup_distinct(s);
    }
}

} // verus!

verus! {

/// In a well-formed resolution candidates are numbered from 1 in order, and no
/// candidate follows a `HIT` or a `BAD_IMAGE`.
pub proof fn lemma_resolution_prefix_closed(r: &Resolution)
    requires
        r.wf(),
    ensures
        forall|i: int| 0 <= i < r.candidates@.len() ==> #[trigger] r.candidates@[i].order == i + 1,
        forall|i: int, j: int|
            0 <= i < j < r.candidates@.len() ==> (#[trigger] r.candidates@[i]).result@ != token_of(
                ResolutionKind::Found,
            ) && r.candidates@[i].result@ != token_of(ResolutionKind::BadImage) && #[trigger] r.candidates@[j].order
                == j + 1,
{
    lemma_tokens_distinct();
}

} // verus!
