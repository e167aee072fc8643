//! Paths as text: components, placeholders and joining.
//!
//! A path is a sequence of characters in which `/` separates components.
//! A target may hold placeholders: the component `~` stands for the home
//! directory and a component that begins with `$` for the variable it names.

use vstd::prelude::*;
use crate::env::Env;
use crate::text::{chars_of, same, views};

verus! {

/// Why a path could not be resolved.
#[derive(Debug, Clone, PartialEq, Eq)]
pub enum ResolveError {
    /// The path refers to a variable, by this name, that is not set.
    UnresolvedVariable(String),
}

/// Cuts a path at every separator. The pieces between two separators that
/// follow each other, before a leading and after a trailing separator are
/// empty.
pub open spec fn split(path: Seq<char>) -> Seq<Seq<char>>
    decreases path.len(),
{
    if path.len() == 0 {
        seq![Seq::empty()]
    } else {
        let before = split(path.drop_last());
        if path.last() == '/' {
            before.push(Seq::empty())
        } else {
            before.drop_last().push(before.last().push(path.last()))
        }
    }
}

/// A piece names something unless it is empty or the single dot that stands
/// for "here".
pub open spec fn is_name(piece: Seq<char>) -> bool {
    piece.len() > 0 && piece != seq!['.']
}

/// `is_name` as a predicate for filtering.
pub open spec fn names() -> spec_fn(Seq<char>) -> bool {
    |piece: Seq<char>| is_name(piece)
}

/// What the start of a path contributes: the root `/` of an absolute path,
/// or the dot of a path that begins with `.` as a piece of its own.
pub open spec fn leading(path: Seq<char>) -> Seq<Seq<char>> {
    if path.len() > 0 && path[0] == '/' {
        seq![seq!['/']]
    } else if path.len() > 0 && path[0] == '.' && (path.len() == 1 || path[1] == '/') {
        seq![seq!['.']]
    } else {
        Seq::empty()
    }
}

/// The components of a path: what its start contributes, then every piece
/// that names something, in order.
pub open spec fn components(path: Seq<char>) -> Seq<Seq<char>> {
    leading(path) + split(path).filter(names())
}

/// The name of the variable that holds the home directory.
pub open spec fn home() -> Seq<char> {
    "HOME"@
}

/// The value of a variable, or the name of the variable if it is not set.
pub open spec fn value_of(name: Seq<char>, env: Map<Seq<char>, Seq<char>>) -> Result<
    Seq<char>,
    Seq<char>,
> {
    if env.contains_key(name) {
        Ok(env[name])
    } else {
        Err(name)
    }
}

/// What one component stands for: `~` for the home directory, `$NAME` for
/// the variable `NAME`, anything else for itself.
pub open spec fn expanded(component: Seq<char>, env: Map<Seq<char>, Seq<char>>) -> Result<
    Seq<char>,
    Seq<char>,
> {
    if component == seq!['~'] {
        value_of(home(), env)
    } else if component.len() > 0 && component[0] == '$' {
        value_of(component.drop_first(), env)
    } else {
        Ok(component)
    }
}

/// Every component expanded, in order, or the name of the variable at which
/// the first of them fails.
pub open spec fn expanded_all(parts: Seq<Seq<char>>, env: Map<Seq<char>, Seq<char>>) -> Result<
    Seq<Seq<char>>,
    Seq<char>,
>
    decreases parts.len(),
{
    if parts.len() == 0 {
        Ok(Seq::empty())
    } else {
        match expanded_all(parts.drop_last(), env) {
            Err(name) => Err(name),
            Ok(before) => match expanded(parts.last(), env) {
                Err(name) => Err(name),
                Ok(value) => Ok(before.push(value)),
            },
        }
    }
}

/// The parts with one separator between each two of them.
pub open spec fn joined(parts: Seq<Seq<char>>) -> Seq<char>
    decreases parts.len(),
{
    if parts.len() == 0 {
        Seq::empty()
    } else if parts.len() == 1 {
        parts[0]
    } else {
        joined(parts.drop_last()) + seq!['/'] + parts.last()
    }
}

/// The path with a run of separators at its start cut down to one.
pub open spec fn collapsed(path: Seq<char>) -> Seq<char>
    decreases path.len(),
{
    if path.len() >= 2 && path[0] == '/' && path[1] == '/' {
        collapsed(path.drop_first())
    } else {
        path
    }
}

/// The path that `raw` resolves to in `env`, or the name of the variable
/// that it needs and `env` does not set.
pub open spec fn resolved(raw: Seq<char>, env: Map<Seq<char>, Seq<char>>) -> Result<
    Seq<char>,
    Seq<char>,
> {
    match expanded_all(components(raw), env) {
        Ok(parts) => Ok(collapsed(joined(parts))),
        Err(name) => Err(name),
    }
}

/// Filtering the pieces for names goes piece by piece.
proof fn lemma_names_push(pieces: Seq<Seq<char>>, piece: Seq<char>)
    ensures
        pieces.push(piece).filter(names()) == if is_name(piece) {
            pieces.filter(names()).push(piece)
        } else {
            pieces.filter(names())
        },
{
    reveal(Seq::filter);
    assert(pieces.push(piece).drop_last() =~= pieces);
}

/// A stretch of a path names something unless it is empty or a single dot.
proof fn lemma_is_name_stretch(path: Seq<char>, start: int, end: int)
    requires
        0 <= start <= end <= path.len(),
    ensures
        is_name(path.subrange(start, end)) == (end > start && !(end == start + 1 && path[start]
            == '.')),
{
    let piece = path.subrange(start, end);
    let dot = seq!['.'];
    assert(dot.len() == 1 && dot[0] == '.');
    if end == start + 1 {
        assert(piece[0] == path[start]);
        if path[start] == '.' {
            assert(piece =~= dot);
        }
    }
}

/// The components of a path, as `components` defines them.
pub fn split_path(path: &str) -> (parts: Vec<String>)
    ensures
        views(parts@) == components(path@),
{
    let chars = chars_of(path);
    let n = chars.len();
    let mut parts: Vec<String> = Vec::new();
    if n > 0 && chars[0] == '/' {
        let root: String = "/".to_owned();
        proof {
            reveal_strlit("/");
            assert(root@ =~= seq!['/']);
        }
        parts.push(root);
    } else if n > 0 && chars[0] == '.' && (n == 1 || chars[1] == '/') {
        let here: String = ".".to_owned();
        proof {
            reveal_strlit(".");
            assert(here@ =~= seq!['.']);
        }
        parts.push(here);
    }
    assert(views(parts@) =~= leading(path@));
    let mut start: usize = 0;
    let mut i: usize = 0;
    proof {
        reveal(Seq::filter);
        assert(path@.take(0) =~= Seq::<char>::empty());
        assert(split(path@.take(0)).drop_last() =~= Seq::<Seq<char>>::empty());
        assert(split(path@.take(0)).last() =~= path@.subrange(0, 0));
    }
    while i < n
        invariant
            start <= i <= n,
            n == path@.len(),
            chars@ == path@,
            split(path@.take(i as int)).len() > 0,
            split(path@.take(i as int)).last() == path@.subrange(start as int, i as int),
            views(parts@) == leading(path@) + split(path@.take(i as int)).drop_last().filter(
                names(),
            ),
        decreases n - i,
    {
        let ghost before = split(path@.take(i as int));
        let ghost now = path@.take(i + 1);
        proof {
            assert(now.drop_last() =~= path@.take(i as int));
            assert(now.last() == path@[i as int]);
        }
        if chars[i] == '/' {
            let named = i > start && !(i == start + 1 && chars[start] == '.');
            proof {
                assert(split(now) == before.push(Seq::empty()));
                assert(split(now).drop_last() =~= before);
                assert(before =~= before.drop_last().push(before.last()));
                lemma_names_push(before.drop_last(), before.last());
                lemma_is_name_stretch(path@, start as int, i as int);
            }
            if named {
                let piece = path.substring_char(start, i);
                let ghost kept = views(parts@);
                parts.push(piece.to_owned());
                assert(views(parts@) =~= kept.push(before.last()));
            }
            start = i + 1;
            assert(split(now).last() =~= path@.subrange(start as int, i + 1));
        } else {
            proof {
                assert(split(now) == before.drop_last().push(before.last().push(path@[i as int])));
                assert(split(now).drop_last() =~= before.drop_last());
                assert(split(now).last() =~= path@.subrange(start as int, i + 1));
            }
        }
        i += 1;
    }
    let ghost all = split(path@);
    let named = n > start && !(n == start + 1 && chars[start] == '.');
    proof {
        assert(path@.take(n as int) =~= path@);
        assert(all =~= all.drop_last().push(all.last()));
        lemma_names_push(all.drop_last(), all.last());
        lemma_is_name_stretch(path@, start as int, n as int);
    }
    if named {
        let piece = path.substring_char(start, n);
        let ghost kept = views(parts@);
        parts.push(piece.to_owned());
        assert(views(parts@) =~= kept.push(all.last()));
    }
    parts
}

/// What one component stands for in `env`, as `expanded` defines it.
pub fn expand_component(component: &str, env: &Env) -> (r: Result<String, ResolveError>)
    ensures
        match r {
            Ok(value) => expanded(component@, env@) == Ok::<Seq<char>, Seq<char>>(value@),
            Err(ResolveError::UnresolvedVariable(name)) => expanded(component@, env@) == Err::<
                Seq<char>,
                Seq<char>,
            >(name@),
        },
{
    proof {
        reveal_strlit("~");
        assert("~"@ =~= seq!['~']);
    }
    let n = component.unicode_len();
    if same(component, "~") {
        match env.get("HOME") {
            Some(value) => Ok(value),
            None => Err(ResolveError::UnresolvedVariable("HOME".to_owned())),
        }
    } else if n > 0 && component.get_char(0) == '$' {
        let name = component.substring_char(1, n);
        assert(name@ =~= component@.drop_first());
        match env.get(name) {
            Some(value) => Ok(value),
            None => Err(ResolveError::UnresolvedVariable(name.to_owned())),
        }
    } else {
        Ok(component.to_owned())
    }
}

/// The parts with one separator between each two of them.
pub fn join_parts(parts: &Vec<String>) -> (path: String)
    ensures
        path@ == joined(views(parts@)),
{
    let mut path = String::new();
    let mut i: usize = 0;
    proof {
        reveal_strlit("/");
        assert(views(parts@).take(0) =~= Seq::<Seq<char>>::empty());
    }
    while i < parts.len()
        invariant
            i <= parts.len(),
            "/"@.len() == 1,
            "/"@[0] == '/',
            path@ == joined(views(parts@).take(i as int)),
        decreases parts.len() - i,
    {
        let ghost before = views(parts@).take(i as int);
        let ghost now = views(parts@).take(i + 1);
        proof {
            assert(now.drop_last() =~= before);
            assert(now.last() == parts@[i as int]@);
        }
        if i > 0 {
            path.append("/");
            assert("/"@ =~= seq!['/']);
        }
        path.append(parts[i].as_str());
        i += 1;
    }
    assert(views(parts@).take(parts.len() as int) =~= views(parts@));
    path
}

/// The path with a run of separators at its start cut down to one.
pub fn collapse_root(path: &str) -> (r: String)
    ensures
        r@ == collapsed(path@),
{
    let chars = chars_of(path);
    let n = chars.len();
    let mut skip: usize = 0;
    assert(path@.skip(0) =~= path@);
    while n - skip >= 2 && chars[skip] == '/' && chars[skip + 1] == '/'
        invariant
            skip <= n,
            n == path@.len(),
            chars@ == path@,
            collapsed(path@) == collapsed(path@.skip(skip as int)),
        decreases n - skip,
    {
        assert(path@.skip(skip as int).drop_first() =~= path@.skip(skip + 1));
        skip += 1;
    }
    assert(path@.skip(skip as int) =~= path@.subrange(skip as int, n as int));
    path.substring_char(skip, n).to_owned()
}

/// Resolves the placeholders of a path.
///
/// The path is cut into components; `~` becomes the value of `HOME`, a
/// component `$NAME` the value of `NAME`, every other component stays; the
/// results are joined with `/`, and a run of separators at the start of the
/// joined path is cut down to one. Resolution fails at the first component,
/// from the left, whose variable `env` does not set, and names that
/// variable.
pub fn parse_path(path: &str, env: &Env) -> (r: Result<String, ResolveError>)
    ensures
        match r {
            Ok(target) => resolved(path@, env@) == Ok::<Seq<char>, Seq<char>>(target@),
            Err(ResolveError::UnresolvedVariable(name)) => resolved(path@, env@) == Err::<
                Seq<char>,
                Seq<char>,
            >(name@),
        },
{
    let parts = split_path(path);
    let mut values: Vec<String> = Vec::new();
    let mut i: usize = 0;
    assert(views(parts@).take(0) =~= Seq::<Seq<char>>::empty());
    assert(views(values@) =~= Seq::<Seq<char>>::empty());
    while i < parts.len()
        invariant
            i <= parts.len(),
            views(parts@) == components(path@),
            expanded_all(views(parts@).take(i as int), env@) == Ok::<Seq<Seq<char>>, Seq<char>>(
                views(values@),
            ),
        decreases parts.len() - i,
    {
        let ghost now = views(parts@).take(i + 1);
        proof {
            assert(now.drop_last() =~= views(parts@).take(i as int));
            assert(now.last() == parts@[i as int]@);
        }
        match expand_component(parts[i].as_str(), env) {
            Ok(value) => {
                let ghost kept = views(values@);
                values.push(value);
                assert(views(values@) =~= kept.push(value@));
            },
            Err(e) => {
                proof {
                    lemma_expanded_all_fails(views(parts@), i + 1, env@);
                }
                return Err(e);
            },
        }
        i += 1;
    }
    assert(views(parts@).take(parts.len() as int) =~= views(parts@));
    let path = join_parts(&values);
    Ok(collapse_root(path.as_str()))
}

/// Once the expansion of a prefix of the components has failed, the
/// expansion of all of them fails in the same way.
pub proof fn lemma_expanded_all_fails(
    parts: Seq<Seq<char>>,
    upto: int,
    env: Map<Seq<char>, Seq<char>>,
)
    requires
        0 <= upto <= parts.len(),
        expanded_all(parts.take(upto), env) is Err,
    ensures
        expanded_all(parts, env) == expanded_all(parts.take(upto), env),
    decreases parts.len() - upto,
{
    if upto == parts.len() {
        assert(parts.take(upto) =~= parts);
    } else {
        assert(parts.drop_last().take(upto) =~= parts.take(upto));
        lemma_expanded_all_fails(parts.drop_last(), upto, env);
    }
}

/// The path `rel` as seen from `root`: `rel` itself where it is absolute,
/// else `root` and `rel` with exactly one separator put between them, unless
/// `root` is empty or ends in one already.
pub open spec fn adjoined(root: Seq<char>, rel: Seq<char>) -> Seq<char> {
    if rel.len() > 0 && rel[0] == '/' {
        rel
    } else if root.len() > 0 && root.last() != '/' {
        root + seq!['/'] + rel
    } else {
        root + rel
    }
}

/// The path `rel` as seen from `root`, as `adjoined` defines it.
pub fn adjoin(root: &str, rel: &str) -> (path: String)
    ensures
        path@ == adjoined(root@, rel@),
{
    let root_len = root.unicode_len();
    let rel_len = rel.unicode_len();
    if rel_len > 0 && rel.get_char(0) == '/' {
        return rel.to_owned();
    }
    let mut path: String = root.to_owned();
    if root_len > 0 && root.get_char(root_len - 1) != '/' {
        proof {
            reveal_strlit("/");
            assert("/"@ =~= seq!['/']);
        }
        path.append("/");
    }
    path.append(rel);
    path
}

/// Whether two paths have the same components, which is how two paths are
/// compared: `a//b/` and `a/b` name the same place.
pub fn same_path(a: &str, b: &str) -> (r: bool)
    ensures
        r == (components(a@) == components(b@)),
{
    let left = split_path(a);
    let right = split_path(b);
    if left.len() != right.len() {
        assert(views(left@).len() != views(right@).len());
        return false;
    }
    let mut i: usize = 0;
    while i < left.len()
        invariant
            i <= left.len(),
            left.len() == right.len(),
            views(left@) == components(a@),
            views(right@) == components(b@),
            forall|j: int| 0 <= j < i ==> left@[j]@ == right@[j]@,
        decreases left.len() - i,
    {
        if left[i] != right[i] {
            assert(views(left@)[i as int] != views(right@)[i as int]);
            return false;
        }
        i += 1;
    }
    assert(views(left@) =~= views(right@));
    true
}

/// Expansion keeps the number of components and expands each in its place.
pub proof fn lemma_expanded_all_each(parts: Seq<Seq<char>>, env: Map<Seq<char>, Seq<char>>)
    ensures
        expanded_all(parts, env) is Ok <==> forall|i: int|
            0 <= i < parts.len() ==> (#[trigger] expanded(parts[i], env)) is Ok,
        expanded_all(parts, env) matches Ok(values) ==> values.len() == parts.len() && forall|
            i: int,
        |
            0 <= i < parts.len() ==> expanded(parts[i], env) == Ok::<Seq<char>, Seq<char>>(
                #[trigger] values[i],
            ),
    decreases parts.len(),
{
    if parts.len() > 0 {
        let before = parts.drop_last();
        lemma_expanded_all_each(before, env);
        assert forall|i: int| 0 <= i < before.len() implies before[i] == parts[i] by {}
        if expanded_all(parts, env) is Ok {
            assert forall|i: int| 0 <= i < parts.len() implies (#[trigger] expanded(
                parts[i],
                env,
            )) is Ok by {
                if i < before.len() {
                    assert(before[i] == parts[i]);
                }
            }
        } else if expanded_all(before, env) is Ok {
            assert(expanded(parts[parts.len() - 1], env) is Err);
        } else {
            let i = choose|i: int| 0 <= i < before.len() && !((#[trigger] expanded(
                before[i],
                env,
            )) is Ok);
            assert(expanded(parts[i], env) is Err);
        }
    }
}

/// The joined parts begin with the first of them.
pub proof fn lemma_joined_begins(parts: Seq<Seq<char>>)
    requires
        parts.len() > 0,
    ensures
        parts[0].is_prefix_of(joined(parts)),
    decreases parts.len(),
{
    if parts.len() > 1 {
        lemma_joined_begins(parts.drop_last());
    }
}

/// A path that begins with a separator still does once it is collapsed.
pub proof fn lemma_collapsed_keeps_root(path: Seq<char>)
    requires
        path.len() > 0,
        path[0] == '/',
    ensures
        collapsed(path).len() > 0,
        collapsed(path)[0] == '/',
    decreases path.len(),
{
    if path.len() >= 2 && path[1] == '/' {
        lemma_collapsed_keeps_root(path.drop_first());
    }
}

/// Collapsing a path that begins with `head` gives a path that begins with
/// the collapsed `head`.
pub proof fn lemma_collapsed_begins(head: Seq<char>, path: Seq<char>)
    requires
        head.is_prefix_of(path),
    ensures
        collapsed(head).is_prefix_of(collapsed(path)),
    decreases head.len(),
{
    if head.len() >= 2 && head[0] == '/' && head[1] == '/' {
        assert(path[0] == head[0] && path[1] == head[1]);
        assert(head.drop_first().is_prefix_of(path.drop_first()));
        lemma_collapsed_begins(head.drop_first(), path.drop_first());
    } else if head.len() == 1 && head[0] == '/' {
        assert(path[0] == head[0]);
        lemma_collapsed_keeps_root(path);
        assert(head =~= collapsed(path).subrange(0, 1));
    } else if head.len() >= 1 {
        assert(path[0] == head[0]);
        if head.len() >= 2 {
            assert(path[1] == head[1]);
        }
    }
}

/// A reference to a variable that is not set makes resolution fail: a path
/// resolves exactly if each of its components expands. So a path with a
/// component `$NAME`, where `NAME` is not set, does not resolve, and the
/// error is `UnresolvedVariable`, the only one there is.
pub proof fn lemma_unset_variable_fails(raw: Seq<char>, env: Map<Seq<char>, Seq<char>>)
    ensures
        resolved(raw, env) is Ok <==> forall|i: int|
            0 <= i < components(raw).len() ==> (#[trigger] expanded(components(raw)[i], env)) is Ok,
        forall|i: int|
            #![trigger components(raw)[i]]
            0 <= i < components(raw).len() && components(raw)[i].len() > 0 && components(
                raw,
            )[i][0] == '$' && !env.contains_key(components(raw)[i].drop_first()) ==> resolved(
                raw,
                env,
            ) is Err,
{
    lemma_expanded_all_each(components(raw), env);
    assert forall|i: int|
        #![trigger components(raw)[i]]
        0 <= i < components(raw).len() && components(raw)[i].len() > 0 && components(raw)[i][0]
            == '$' && !env.contains_key(components(raw)[i].drop_first()) implies resolved(
        raw,
        env,
    ) is Err by {
        let tilde = seq!['~'];
        assert(tilde[0] == '~');
        assert(expanded(components(raw)[i], env) is Err);
    }
}

/// Whether `~` leads a path: as its first component, or as the first below
/// the root.
pub open spec fn home_leads(raw: Seq<char>) -> bool {
    let parts = components(raw);
    ||| parts.len() >= 1 && parts[0] == seq!['~']
    ||| parts.len() >= 2 && parts[0] == seq!['/'] && parts[1] == seq!['~']
}

/// A path that `~` leads resolves to a path that begins with the home
/// directory, its leading separators collapsed; below the root this takes a
/// home directory that is absolute. So with a home directory such as
/// `/home/u`, which does not begin with two separators, the resolved path
/// begins with `/home/u`.
pub proof fn lemma_home_leads(raw: Seq<char>, env: Map<Seq<char>, Seq<char>>)
    requires
        home_leads(raw),
        env.contains_key(home()),
        components(raw)[0] == seq!['~'] || (env[home()].len() > 0 && env[home()][0] == '/'),
        resolved(raw, env) is Ok,
    ensures
        collapsed(env[home()]).is_prefix_of(resolved(raw, env)->Ok_0),
        !(env[home()].len() >= 2 && env[home()][0] == '/' && env[home()][1] == '/')
            ==> env[home()].is_prefix_of(resolved(raw, env)->Ok_0),
{
    let parts = components(raw);
    let dir = env[home()];
    let values = expanded_all(parts, env)->Ok_0;
    let path = joined(values);
    lemma_expanded_all_each(parts, env);
    let tilde = seq!['~'];
    let root = seq!['/'];
    assert(tilde[0] == '~' && tilde.len() == 1);
    assert(root[0] == '/' && root.len() == 1);
    if parts[0] == tilde {
        assert(expanded(parts[0], env) == Ok::<Seq<char>, Seq<char>>(values[0]));
        lemma_joined_begins(values);
        lemma_collapsed_begins(dir, path);
    } else {
        assert(expanded(parts[0], env) == Ok::<Seq<char>, Seq<char>>(values[0]));
        assert(expanded(parts[1], env) == Ok::<Seq<char>, Seq<char>>(values[1]));
        assert(values[0] == root);
        assert(values[1] == dir);
        let two = values.take(2);
        lemma_joined_prefix(values, 2);
        assert(two.drop_last() =~= seq![root]);
        assert(joined(two.drop_last()) == root);
        assert(two.last() == dir);
        assert(joined(two) =~= root + root + dir);
        let rest = path.skip(2);
        assert(dir.is_prefix_of(rest)) by {
            assert forall|i: int| 0 <= i < dir.len() implies rest[i] == dir[i] by {
                assert(rest[i] == path[i + 2]);
                assert(joined(two)[i + 2] == dir[i]);
            }
            assert(rest.subrange(0, dir.len() as int) =~= dir);
        }
        assert(path[0] == '/' && path[1] == '/' && path[2] == '/') by {
            assert(joined(two)[0] == '/' && joined(two)[1] == '/' && joined(two)[2] == dir[0]);
            assert(path.subrange(0, joined(two).len() as int) == joined(two));
            assert(path.subrange(0, joined(two).len() as int)[0] == path[0]);
            assert(path.subrange(0, joined(two).len() as int)[1] == path[1]);
            assert(path.subrange(0, joined(two).len() as int)[2] == path[2]);
        }
        assert(collapsed(path) == collapsed(path.drop_first()));
        assert(path.drop_first()[0] == '/' && path.drop_first()[1] == '/');
        assert(collapsed(path.drop_first()) == collapsed(path.drop_first().drop_first()));
        assert(path.drop_first().drop_first() =~= rest);
        lemma_collapsed_begins(dir, rest);
    }
}

/// The joined parts begin with what the first of them join to.
pub proof fn lemma_joined_prefix(parts: Seq<Seq<char>>, upto: int)
    requires
        0 <= upto <= parts.len(),
    ensures
        joined(parts.take(upto)).is_prefix_of(joined(parts)),
    decreases parts.len() - upto,
{
    if upto == parts.len() {
        assert(parts.take(upto) =~= parts);
    } else if upto == 0 {
        assert(joined(parts.take(0)) =~= Seq::<char>::empty());
    } else {
        assert(parts.drop_last().take(upto) =~= parts.take(upto));
        lemma_joined_prefix(parts.drop_last(), upto);
    }
}

/// Cutting and joining undo each other: the pieces of a path, joined, are
/// the path, and no piece holds a separator.
pub proof fn lemma_split_joins(path: Seq<char>)
    ensures
        split(path).len() > 0,
        joined(split(path)) == path,
        forall|i: int, j: int|
            0 <= i < split(path).len() && 0 <= j < split(path)[i].len() ==> (#[trigger] split(
                path,
            )[i][j]) != '/',
    decreases path.len(),
{
    if path.len() == 0 {
        assert(joined(split(path)) =~= path);
    } else {
        let before = split(path.drop_last());
        let pieces = split(path);
        lemma_split_joins(path.drop_last());
        assert(path =~= path.drop_last().push(path.last()));
        if path.last() == '/' {
            assert(pieces.drop_last() =~= before);
            assert(joined(pieces) =~= path);
        } else {
            let grown = before.last().push(path.last());
            assert(pieces.last() == grown);
            if before.len() == 1 {
                assert(before[0] == joined(before));
                assert(joined(pieces) =~= path);
            } else {
                assert(pieces.drop_last() =~= before.drop_last());
                assert(joined(pieces) =~= joined(before).push(path.last()));
            }
            assert forall|i: int, j: int|
                0 <= i < pieces.len() && 0 <= j < pieces[i].len() implies (#[trigger] pieces[i][j])
                != '/' by {
                if i < pieces.len() - 1 {
                    assert(pieces[i] == before[i]);
                } else if j < before.last().len() {
                    assert(pieces[i][j] == before[i][j]);
                }
            }
        }
    }
}

/// A collapsed path begins with one separator at most, and collapsing
/// takes away nothing but separators at the start: what is left is the end
/// of the path.
pub proof fn lemma_collapsed_root(path: Seq<char>)
    ensures
        !(collapsed(path).len() >= 2 && collapsed(path)[0] == '/' && collapsed(path)[1] == '/'),
        collapsed(path).len() <= path.len(),
        collapsed(path) == path.skip(path.len() - collapsed(path).len()),
        forall|i: int| 0 <= i < path.len() - collapsed(path).len() ==> path[i] == '/',
    decreases path.len(),
{
    if path.len() >= 2 && path[0] == '/' && path[1] == '/' {
        let rest = path.drop_first();
        lemma_collapsed_root(rest);
        let cut = rest.len() - collapsed(rest).len();
        assert(rest.skip(cut) =~= path.skip(cut + 1));
        assert forall|i: int| 0 <= i < path.len() - collapsed(path).len() implies path[i]
            == '/' by {
            if i > 0 {
                assert(path[i] == rest[i - 1]);
            }
        }
    } else {
        assert(path.skip(0) =~= path);
    }
}

/// A resolved path begins with one separator at most.
pub proof fn lemma_resolved_root(raw: Seq<char>, env: Map<Seq<char>, Seq<char>>)
    ensures
        resolved(raw, env) matches Ok(path) ==> !(path.len() >= 2 && path[0] == '/' && path[1]
            == '/'),
{
    if let Ok(parts) = expanded_all(components(raw), env) {
        lemma_collapsed_root(joined(parts));
    }
}

} // verus!
