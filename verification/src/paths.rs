//! Paths as texts: their components, and where Steam keeps its files.
use crate::capability::joined;
use crate::text::{chars_of, concat, text_eq, text_of};
use vstd::prelude::*;
use vstd::string::*;

verus! {

/// Whether the characters from `start` to `end` are a whole component of a path.
pub open spec fn component_at(path: Seq<char>, start: int, end: int) -> bool {
    &&& 0 <= start < end <= path.len()
    &&& start == 0 || path[start - 1] == '/'
    &&& end == path.len() || path[end] == '/'
    &&& forall|k: int| start <= k < end ==> path[k] != '/'
}

/// Whether a path has a component of that name.
pub open spec fn has_component(path: Seq<char>, name: Seq<char>) -> bool {
    exists|start: int, end: int| #[trigger]
        component_at(path, start, end) && path.subrange(start, end) == name
}

/// The components of a path, in their order.
pub open spec fn components_from(path: Seq<char>, start: int, at: int) -> Seq<Seq<char>>
    decreases path.len() - at,
{
    if at < start || at > path.len() {
        Seq::empty()
    } else if at == path.len() || path[at] == '/' {
        let here: Seq<Seq<char>> = if start < at {
            seq![path.subrange(start, at)]
        } else {
            Seq::empty()
        };
        if at == path.len() {
            here
        } else {
            here + components_from(path, at + 1, at + 1)
        }
    } else {
        components_from(path, start, at + 1)
    }
}

/// The texts of a list.
pub open spec fn texts_of(list: Seq<String>) -> Seq<Seq<char>> {
    list.map_values(|text: String| text@)
}

/// Which components a path is made of.
pub fn path_components(path: &str) -> (components: Vec<String>)
    ensures
        texts_of(components@) == components_from(path@, 0, 0),
{
    let chars: Vec<char> = chars_of(path);
    let mut components: Vec<String> = Vec::new();
    let mut start: usize = 0;
    let mut at: usize = 0;
    assert(texts_of(components@) + components_from(path@, 0, 0) =~= components_from(path@, 0, 0));
    while at < chars.len()
        invariant
            start <= at <= chars@.len(),
            chars@ == path@,
            texts_of(components@) + components_from(path@, start as int, at as int)
                == components_from(path@, 0, 0),
        decreases chars@.len() - at,
    {
        if chars[at] == '/' {
            let ghost before = texts_of(components@);
            let ghost rest = components_from(path@, at + 1, at + 1);
            if start < at {
                let component: String = text_of(
                    vstd::slice::slice_subrange(chars.as_slice(), start, at),
                );
                components.push(component);
                assert(texts_of(components@) =~= before.push(path@.subrange(start as int, at as int)));
                assert(texts_of(components@) + rest =~= before + (seq![
                    path@.subrange(start as int, at as int),
                ] + rest));
            } else {
                assert(before + (Seq::<Seq<char>>::empty() + rest) =~= before + rest);
            }
            start = at + 1;
        }
        at = at + 1;
    }
    let ghost before = texts_of(components@);
    if start < at {
        let component: String = text_of(vstd::slice::slice_subrange(chars.as_slice(), start, at));
        components.push(component);
        assert(texts_of(components@) =~= before.push(path@.subrange(start as int, at as int)));
        assert(texts_of(components@) =~= before + seq![path@.subrange(start as int, at as int)]);
    } else {
        assert(before + Seq::<Seq<char>>::empty() =~= before);
    }
    components
}

/// Every listed component is one of the path, and every component is listed.
proof fn lemma_components(path: Seq<char>, start: int, at: int, name: Seq<char>)
    requires
        0 <= start <= at <= path.len(),
        start == 0 || path[start - 1] == '/',
        forall|k: int| start <= k < at ==> path[k] != '/',
    ensures
        components_from(path, start, at).contains(name) <==> exists|s: int, e: int|
            s >= start && #[trigger] component_at(path, s, e) && path.subrange(s, e) == name,
    decreases path.len() - at,
{
    let all = components_from(path, start, at);
    if at == path.len() || path[at] == '/' {
        let here: Seq<Seq<char>> = if start < at {
            seq![path.subrange(start, at)]
        } else {
            Seq::empty()
        };
        let rest: Seq<Seq<char>> = if at == path.len() {
            Seq::empty()
        } else {
            components_from(path, at + 1, at + 1)
        };
        assert(all =~= here + rest);
        if at < path.len() {
            lemma_components(path, at + 1, at + 1, name);
        }
        if all.contains(name) {
            let k = choose|k: int| 0 <= k < all.len() && all[k] == name;
            if k < here.len() {
                assert(component_at(path, start, at));
            } else {
                assert(rest[k - here.len()] == name);
                assert(rest.contains(name));
                let (s, e) = choose|s: int, e: int|
                    s >= at + 1 && #[trigger] component_at(path, s, e) && path.subrange(s, e)
                        == name;
                assert(s >= start && component_at(path, s, e) && path.subrange(s, e) == name);
            }
        }
        if exists|s: int, e: int|
            s >= start && #[trigger] component_at(path, s, e) && path.subrange(s, e) == name {
            let (s, e) = choose|s: int, e: int|
                s >= start && #[trigger] component_at(path, s, e) && path.subrange(s, e) == name;
            if s == start {
                if e > at {
                    assert(path[at] != '/');
                }
                if e < at {
                    assert(path[e] == '/');
                }
                assert(e == at);
                assert(all[0] == name);
            } else if s <= at {
                assert(path[s - 1] == '/');
                assert(s - 1 >= start);
            } else {
                assert(s >= at + 1);
                assert(at < path.len());
                assert(rest.contains(name));
                let k = choose|k: int| 0 <= k < rest.len() && rest[k] == name;
                assert(all[k + here.len()] == name);
            }
        }
    } else {
        lemma_components(path, start, at + 1, name);
    }
}

/// Whether a path has a component of that name.
pub fn path_has_component(path: &str, name: &str) -> (found: bool)
    ensures
        found == has_component(path@, name@),
{
    let components: Vec<String> = path_components(path);
    proof {
        lemma_components(path@, 0, 0, name@);
        let all = components_from(path@, 0, 0);
        if has_component(path@, name@) {
            let (s, e) = choose|s: int, e: int| #[trigger]
                component_at(path@, s, e) && path@.subrange(s, e) == name@;
            assert(s >= 0 && component_at(path@, s, e) && path@.subrange(s, e) == name@);
            assert(all.contains(name@));
        }
    }
    let mut i: usize = 0;
    while i < components.len()
        invariant
            i <= components@.len(),
            texts_of(components@) == components_from(path@, 0, 0),
            components_from(path@, 0, 0).contains(name@) == has_component(path@, name@),
            forall|k: int| 0 <= k < i ==> (#[trigger] components@[k])@ != name@,
        decreases components@.len() - i,
    {
        if text_eq(components[i].as_str(), name) {
            assert(texts_of(components@)[i as int] == name@);
            return true;
        }
        i = i + 1;
    }
    proof {
        let all = components_from(path@, 0, 0);
        if all.contains(name@) {
            let k = choose|k: int| 0 <= k < all.len() && all[k] == name@;
            assert(texts_of(components@)[k] == components@[k]@);
        }
    }
    false
}

/// The components without those that name the directory itself; a relative path may begin
/// with one.
pub open spec fn without_dots(components: Seq<Seq<char>>, absolute: bool) -> Seq<Seq<char>>
    decreases components.len(),
{
    if components.len() == 0 {
        Seq::empty()
    } else {
        let before = without_dots(components.drop_last(), absolute);
        if components.last() == "."@ && (absolute || components.len() > 1) {
            before
        } else {
            before.push(components.last())
        }
    }
}

/// Whether a path starts at the root.
pub open spec fn is_absolute(path: Seq<char>) -> bool {
    path.len() > 0 && path[0] == '/'
}

/// The components that say where a path leads.
pub open spec fn normal_components(path: Seq<char>) -> Seq<Seq<char>> {
    without_dots(components_from(path, 0, 0), is_absolute(path))
}

fn text_is_absolute(path: &str) -> (absolute: bool)
    ensures
        absolute == is_absolute(path@),
{
    path.unicode_len() > 0 && path.get_char(0) == '/'
}

pub fn normal_parts(path: &str) -> (parts: Vec<String>)
    ensures
        texts_of(parts@) == normal_components(path@),
{
    let absolute: bool = text_is_absolute(path);
    let components: Vec<String> = path_components(path);
    let ghost all = texts_of(components@);
    let mut parts: Vec<String> = Vec::new();
    let mut i: usize = 0;
    assert(all.take(0) =~= Seq::empty());
    assert(texts_of(parts@) =~= Seq::empty());
    while i < components.len()
        invariant
            i <= components@.len(),
            all == texts_of(components@),
            absolute == is_absolute(path@),
            texts_of(parts@) == without_dots(all.take(i as int), absolute),
        decreases components@.len() - i,
    {
        assert(all.take(i + 1).drop_last() =~= all.take(i as int));
        let ghost before = texts_of(parts@);
        let component: String = components[i].clone();
        assert(all[i as int] == component@);
        if !(text_eq(component.as_str(), ".") && (absolute || i > 0)) {
            parts.push(component);
            assert(texts_of(parts@) =~= before.push(component@));
        }
        i = i + 1;
    }
    assert(all.take(i as int) =~= all);
    parts
}

/// The path that components spell.
pub open spec fn spelled(components: Seq<Seq<char>>, absolute: bool) -> Seq<char> {
    if absolute {
        "/"@ + joined(components, "/"@)
    } else {
        joined(components, "/"@)
    }
}

/// Spells the first `count` components of a path.
pub fn spell_parts(parts: &Vec<String>, count: usize, absolute: bool) -> (path: String)
    requires
        count <= parts@.len(),
    ensures
        path@ == spelled(texts_of(parts@).take(count as int), absolute),
{
    let ghost all = texts_of(parts@);
    let mut body: String = String::new();
    let mut i: usize = 0;
    assert(all.take(0) =~= Seq::empty());
    while i < count
        invariant
            i <= count <= parts@.len(),
            all == texts_of(parts@),
            body@ == joined(all.take(i as int), "/"@),
        decreases count - i,
    {
        let ghost next = all.take(i + 1);
        assert(next.drop_last() =~= all.take(i as int));
        assert(next.last() == parts@[i as int]@);
        if i > 0 {
            body.append("/");
        }
        body.append(parts[i].as_str());
        proof {
            if i == 0 {
                assert(next.len() == 1);
                assert(body@ =~= next[0]);
            } else {
                assert(body@ =~= joined(all.take(i as int), "/"@) + "/"@ + next.last());
            }
        }
        i = i + 1;
    }
    if absolute {
        concat("/", body.as_str())
    } else {
        body
    }
}

/// A relative path behind a base.
pub open spec fn joined_path(base: Seq<char>, relative: Seq<char>) -> Seq<char> {
    if base.len() == 0 || base.last() == '/' {
        base + relative
    } else {
        base + "/"@ + relative
    }
}

pub fn join_path(base: &str, relative: &str) -> (path: String)
    ensures
        path@ == joined_path(base@, relative@),
{
    let size: usize = base.unicode_len();
    let mut path: String = base.to_owned();
    if size > 0 && base.get_char(size - 1) != '/' {
        path.append("/");
    }
    path.append(relative);
    path
}

proof fn lemma_components_are_shifted(
    path: Seq<char>,
    rest: Seq<char>,
    by: int,
    start: int,
    at: int,
)
    requires
        0 <= by <= path.len(),
        rest == path.skip(by),
        0 <= start <= at <= rest.len(),
    ensures
        components_from(path, by + start, by + at) == components_from(rest, start, at),
    decreases rest.len() - at,
{
    assert(path.subrange(by + start, by + at) =~= rest.subrange(start, at));
    if at < rest.len() {
        assert(path[by + at] == rest[at]);
        if rest[at] == '/' {
            lemma_components_are_shifted(path, rest, by, at + 1, at + 1);
        } else {
            lemma_components_are_shifted(path, rest, by, start, at + 1);
        }
    }
}

proof fn lemma_components_append(front: Seq<char>, rest: Seq<char>, start: int, at: int)
    requires
        0 <= start <= at <= front.len(),
    ensures
        components_from(front + seq!['/'] + rest, start, at) == components_from(front, start, at)
            + components_from(rest, 0, 0),
    decreases front.len() - at,
{
    let path = front + seq!['/'] + rest;
    assert(path.subrange(start, at) =~= front.subrange(start, at));
    if at < front.len() {
        assert(path[at] == front[at]);
        if front[at] == '/' {
            lemma_components_append(front, rest, at + 1, at + 1);
            assert(components_from(path, start, at) =~= components_from(front, start, at)
                + components_from(rest, 0, 0));
        } else {
            lemma_components_append(front, rest, start, at + 1);
        }
    } else {
        assert(path[at] == '/');
        assert(path.skip(at + 1) =~= rest);
        lemma_components_are_shifted(path, rest, at + 1, 0, 0);
    }
}

/// A path with a slash in it is made of what stands before the slash and what stands behind.
pub proof fn law_slashes_part_components(front: Seq<char>, rest: Seq<char>)
    ensures
        components_from(front + seq!['/'] + rest, 0, 0) == components_from(front, 0, 0)
            + components_from(rest, 0, 0),
        components_from(Seq::empty(), 0, 0) == Seq::<Seq<char>>::empty(),
{
    lemma_components_append(front, rest, 0, 0);
}

proof fn lemma_one_component(name: Seq<char>, at: int)
    requires
        0 <= at <= name.len(),
        name.len() > 0,
        forall|k: int| 0 <= k < name.len() ==> name[k] != '/',
    ensures
        components_from(name, 0, at) == seq![name],
    decreases name.len() - at,
{
    if at < name.len() {
        lemma_one_component(name, at + 1);
    } else {
        assert(name.subrange(0, at) =~= name);
    }
}

/// A text without a slash is one component.
pub proof fn law_names_are_one_component(name: Seq<char>)
    requires
        name.len() > 0,
        forall|k: int| 0 <= k < name.len() ==> name[k] != '/',
    ensures
        components_from(name, 0, 0) == seq![name],
{
    lemma_one_component(name, 0);
}

/// A joined path leads where the relative one leads from the base: it has the components of
/// both, begins with the base and ends in the relative path.
pub proof fn law_joined_paths_have_the_components_of_both(base: Seq<char>, relative: Seq<char>)
    ensures
        components_from(joined_path(base, relative), 0, 0) == components_from(base, 0, 0)
            + components_from(relative, 0, 0),
        base.is_prefix_of(joined_path(base, relative)),
        relative.is_suffix_of(joined_path(base, relative)),
        joined_path(base, relative).len() <= base.len() + relative.len() + 1,
{
    reveal_strlit("/");
    assert("/"@ =~= seq!['/']);
    let path = joined_path(base, relative);
    if base.len() == 0 {
        assert(path =~= relative);
        assert(base =~= Seq::empty());
        assert(components_from(base, 0, 0) =~= Seq::empty());
    } else if base.last() == '/' {
        let front = base.drop_last();
        assert(path =~= front + seq!['/'] + relative);
        assert(base =~= front + seq!['/'] + Seq::empty());
        law_slashes_part_components(front, relative);
        law_slashes_part_components(front, Seq::empty());
        assert(components_from(base, 0, 0) =~= components_from(front, 0, 0));
    } else {
        assert(path =~= base + seq!['/'] + relative);
        law_slashes_part_components(base, relative);
    }
}

/// A spelled path has the components that it was spelled from.
pub proof fn law_spelled_paths_keep_their_components(parts: Seq<Seq<char>>, absolute: bool)
    requires
        forall|i: int| 0 <= i < parts.len() ==> (#[trigger] parts[i]).len() > 0,
        forall|i: int, k: int|
            0 <= i < parts.len() && 0 <= k < parts[i].len() ==> #[trigger] parts[i][k] != '/',
    ensures
        components_from(spelled(parts, absolute), 0, 0) == parts,
        is_absolute(spelled(parts, true)),
        !is_absolute(spelled(parts, false)),
    decreases parts.len(),
{
    lemma_joined_components(parts);
    reveal_strlit("/");
    assert("/"@ =~= seq!['/']);
    let row = joined(parts, "/"@);
    assert("/"@ + row =~= Seq::empty() + seq!['/'] + row);
    law_slashes_part_components(Seq::empty(), row);
    assert(Seq::<Seq<char>>::empty() + components_from(row, 0, 0) =~= components_from(row, 0, 0));
}

proof fn lemma_joined_components(parts: Seq<Seq<char>>)
    requires
        forall|i: int| 0 <= i < parts.len() ==> (#[trigger] parts[i]).len() > 0,
        forall|i: int, k: int|
            0 <= i < parts.len() && 0 <= k < parts[i].len() ==> #[trigger] parts[i][k] != '/',
    ensures
        components_from(joined(parts, "/"@), 0, 0) == parts,
        parts.len() > 0 ==> joined(parts, "/"@).len() > 0 && joined(parts, "/"@)[0] != '/',
        parts.len() == 0 ==> joined(parts, "/"@).len() == 0,
    decreases parts.len(),
{
    reveal_strlit("/");
    assert("/"@ =~= seq!['/']);
    if parts.len() == 0 {
        assert(components_from(Seq::<char>::empty(), 0, 0) =~= Seq::empty());
        assert(parts =~= Seq::empty());
    } else if parts.len() == 1 {
        assert(parts[0].len() > 0);
        assert(parts[0][0] != '/');
        law_names_are_one_component(parts[0]);
        assert(parts =~= seq![parts[0]]);
    } else {
        let front = parts.drop_last();
        assert forall|i: int| 0 <= i < front.len() implies (#[trigger] front[i]).len() > 0 by {
            assert(front[i] == parts[i]);
        }
        assert forall|i: int, k: int| 0 <= i < front.len() && 0 <= k < front[i].len() implies
            #[trigger] front[i][k] != '/' by {
            assert(front[i] == parts[i]);
            assert(parts[i][k] != '/');
        }
        lemma_joined_components(front);
        let last = parts.last();
        assert(last == parts[parts.len() - 1]);
        assert forall|k: int| 0 <= k < last.len() implies last[k] != '/' by {
            assert(parts[parts.len() - 1][k] != '/');
        }
        law_names_are_one_component(last);
        law_slashes_part_components(joined(front, "/"@), last);
        assert(joined(parts, "/"@) =~= joined(front, "/"@) + seq!['/'] + last);
        assert(front + seq![last] =~= parts);
    }
}

/// Of an absolute path every component stays but those that name the directory itself, in
/// their order; of a relative one the first stays whatever it is.
pub proof fn law_only_dots_are_left_out(components: Seq<Seq<char>>)
    ensures
        without_dots(components, true) == components.filter(|part: Seq<char>| part != "."@),
        components.len() > 0 ==> without_dots(components, false) == seq![components[0]]
            + components.skip(1).filter(|part: Seq<char>| part != "."@),
    decreases components.len(),
{
    reveal(Seq::filter);
    let keep = |part: Seq<char>| part != "."@;
    if components.len() > 0 {
        let rest = components.drop_last();
        law_only_dots_are_left_out(rest);
        if components.len() == 1 {
            assert(rest =~= Seq::empty());
            assert(components.skip(1) =~= Seq::empty());
            assert(without_dots(rest, false) =~= Seq::empty());
            assert(components.last() == components[0]);
            assert(without_dots(components, false) =~= seq![components[0]]);
            assert(components.skip(1).filter(keep) =~= Seq::empty());
            assert(without_dots(components, false) =~= seq![components[0]] + components.skip(
                1,
            ).filter(keep));
        } else {
            assert(components.skip(1).drop_last() =~= rest.skip(1));
            assert(components.skip(1).last() == components.last());
            assert(rest[0] == components[0]);
            assert(without_dots(components, false) =~= seq![components[0]] + components.skip(
                1,
            ).filter(keep));
        }
    }
}

/// A path has a component of a name exactly where the name is listed among its components.
pub proof fn law_listed_components_are_those_of_the_path(
    path: &str,
    name: &str,
    found: bool,
    components: Vec<String>,
)
    requires
        call_ensures(path_has_component, (path, name), found),
        call_ensures(path_components, (path,), components),
    ensures
        found <==> texts_of(components@).contains(name@),
{
    lemma_components(path@, 0, 0, name@);
    if has_component(path@, name@) {
        let (start, end) = choose|start: int, end: int| #[trigger]
            component_at(path@, start, end) && path@.subrange(start, end) == name@;
        assert(start >= 0 && component_at(path@, start, end));
    }
}

} // verus!
