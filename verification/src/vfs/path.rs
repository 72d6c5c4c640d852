//! Path names.

use vstd::prelude::*;
use vstd::string::*;

use crate::text;

verus! {

/// The parts of a path between its slashes, the empty ones among them.
pub open spec fn split_slash(s: Seq<char>) -> Seq<Seq<char>>
    decreases s.len(),
{
    if s.len() == 0 {
        seq![Seq::empty()]
    } else {
        let front = split_slash(s.drop_last());
        if s.last() == '/' {
            front.push(Seq::empty())
        } else {
            front.drop_last().push(front.last().push(s.last()))
        }
    }
}

/// A part that names the directory it stands in.
pub open spec fn is_dot(name: Seq<char>) -> bool {
    name == seq!['.']
}

/// A part that names the parent directory.
pub open spec fn is_dotdot(name: Seq<char>) -> bool {
    name == seq!['.', '.']
}

/// One step of a walk from the root: an empty part and `.` stay, `..` goes up as far as
/// the root, any other part goes down.
pub open spec fn step(at: Seq<Seq<char>>, name: Seq<char>) -> Seq<Seq<char>> {
    if name.len() == 0 || is_dot(name) {
        at
    } else if is_dotdot(name) {
        if at.len() == 0 {
            at
        } else {
            at.drop_last()
        }
    } else {
        at.push(name)
    }
}

/// Where a walk through the given parts ends.
pub open spec fn walk(at: Seq<Seq<char>>, names: Seq<Seq<char>>) -> Seq<Seq<char>>
    decreases names.len(),
{
    if names.len() == 0 {
        at
    } else {
        step(walk(at, names.drop_last()), names.last())
    }
}

/// The names, each with a slash in front.
pub open spec fn slashed(names: Seq<Seq<char>>) -> Seq<char>
    decreases names.len(),
{
    if names.len() == 0 {
        Seq::empty()
    } else {
        slashed(names.drop_last()).push('/') + names.last()
    }
}

/// The canonical path that leads through the given names.
pub open spec fn render(names: Seq<Seq<char>>) -> Seq<char> {
    if names.len() == 0 {
        seq!['/']
    } else {
        slashed(names)
    }
}

/// The path starts at the root.
pub open spec fn is_absolute(path: Seq<char>) -> bool {
    path.len() > 0 && path[0] == '/'
}

/// The names on the way from the root to `target`, seen from `cwd`.
pub open spec fn names_of(cwd: Seq<char>, target: Seq<char>) -> Seq<Seq<char>> {
    let from = if is_absolute(target) {
        Seq::empty()
    } else {
        walk(Seq::empty(), split_slash(cwd))
    };
    walk(from, split_slash(target))
}

/// The canonical absolute path of `target`, seen from `cwd`.
pub open spec fn normalized(cwd: Seq<char>, target: Seq<char>) -> Seq<char> {
    render(names_of(cwd, target))
}

/// The characters of each of several strings.
pub open spec fn views(names: Seq<String>) -> Seq<Seq<char>> {
    names.map_values(|s: String| s@)
}

proof fn lemma_split_nonempty(s: Seq<char>)
    ensures
        split_slash(s).len() > 0,
    decreases s.len(),
{
    if s.len() > 0 {
        lemma_split_nonempty(s.drop_last());
    }
}

fn is_name(part: &str, name: &str) -> (same: bool)
    ensures
        same == (part@ == name@),
{
    text::equal(part, name)
}

/// Goes one step on a walk from the root.
fn take_step(at: &mut Vec<String>, name: String)
    ensures
        views(final(at)@) == step(views(old(at)@), name@),
{
    proof {
        reveal_strlit(".");
        reveal_strlit("..");
        assert("."@ =~= seq!['.']);
        assert(".."@ =~= seq!['.', '.']);
    }
    if name.as_str().is_empty() || is_name(name.as_str(), ".") {
        return;
    }
    if is_name(name.as_str(), "..") {
        let _ = at.pop();
        assert(views(at@) =~= step(views(old(at)@), name@));
    } else {
        let ghost n = name@;
        at.push(name);
        assert(views(at@) =~= step(views(old(at)@), n));
    }
}

/// Goes through all parts of a path.
fn walk_path(at: &mut Vec<String>, path: &str)
    ensures
        views(final(at)@) == walk(views(old(at)@), split_slash(path@)),
{
    let chars = text::to_chars(path);
    let ghost base = views(at@);
    let ghost mut done: Seq<Seq<char>> = Seq::empty();
    let mut start: usize = 0;
    let mut i: usize = 0;
    proof {
        assert(chars@.take(0) =~= Seq::<char>::empty());
        assert(split_slash(chars@.take(0)) =~= done.push(chars@.subrange(0, 0)));
    }
    while i < chars.len()
        invariant
            chars@ == path@,
            start <= i <= chars@.len(),
            split_slash(chars@.take(i as int)) == done.push(
                chars@.subrange(start as int, i as int),
            ),
            views(at@) == walk(base, done),
        decreases chars.len() - i,
    {
        let ghost part = chars@.subrange(start as int, i as int);
        proof {
            assert(chars@.take(i + 1).drop_last() =~= chars@.take(i as int));
            assert(chars@.take(i + 1).last() == chars@[i as int]);
            assert(done.push(part).drop_last() =~= done);
        }
        if chars[i] == '/' {
            take_step(at, text::slice(path, start, i));
            start = i + 1;
            proof {
                assert(done.push(part).drop_last() =~= done);
                done = done.push(part);
                assert(chars@.subrange(i + 1, i + 1) =~= Seq::<char>::empty());
            }
        } else {
            assert(chars@.subrange(start as int, i + 1) =~= part.push(chars@[i as int]));
        }
        i += 1;
    }
    take_step(at, text::slice(path, start, i));
    proof {
        assert(chars@.take(i as int) =~= path@);
        let part = chars@.subrange(start as int, i as int);
        assert(done.push(part).drop_last() =~= done);
    }
}

/// The canonical absolute path of `target`, seen from the directory `cwd`: without
/// empty parts, `.` and `..`, and without a slash at the end.
pub fn normalize(cwd: &str, target: &str) -> (path: String)
    ensures
        path@ == normalized(cwd@, target@),
{
    let mut at: Vec<String> = Vec::new();
    assert(views(at@) =~= Seq::empty());
    if target.is_empty() || target.get_char(0) != '/' {
        walk_path(&mut at, cwd);
    }
    walk_path(&mut at, target);
    proof {
        reveal_strlit("/");
        assert("/"@ =~= seq!['/']);
    }
    if at.len() == 0 {
        return String::from_str("/");
    }
    let mut path = String::new();
    let mut i: usize = 0;
    assert(views(at@).take(0) =~= Seq::empty());
    while i < at.len()
        invariant
            i <= at.len(),
            "/"@ == seq!['/'],
            path@ == slashed(views(at@).take(i as int)),
        decreases at.len() - i,
    {
        path.append("/");
        path.append(at[i].as_str());
        proof {
            let names = views(at@);
            assert(names.take(i + 1).drop_last() =~= names.take(i as int));
            assert(path@ =~= slashed(names.take(i + 1)));
        }
        i += 1;
    }
    assert(views(at@).take(i as int) =~= views(at@));
    path
}

/// A name that a walk goes down by.
pub open spec fn is_proper(name: Seq<char>) -> bool {
    &&& name.len() > 0
    &&& !is_dot(name)
    &&& !is_dotdot(name)
    &&& !name.contains('/')
}

/// All names are such that a walk goes down by them.
pub open spec fn all_proper(names: Seq<Seq<char>>) -> bool {
    forall|i: int| 0 <= i < names.len() ==> is_proper(#[trigger] names[i])
}

proof fn lemma_split_no_slash(s: Seq<char>)
    ensures
        forall|i: int| 0 <= i < split_slash(s).len() ==> !(#[trigger] split_slash(s)[i]).contains('/'),
    decreases s.len(),
{
    if s.len() > 0 {
        let front = split_slash(s.drop_last());
        lemma_split_no_slash(s.drop_last());
        lemma_split_nonempty(s.drop_last());
        let all = split_slash(s);
        assert forall|i: int| 0 <= i < all.len() implies !(#[trigger] all[i]).contains('/') by {
            if s.last() == '/' {
                if i < front.len() {
                    assert(all[i] == front[i]);
                }
            } else if i < front.len() - 1 {
                assert(all[i] == front[i]);
            } else {
                let last = front[front.len() - 1];
                assert(!last.contains('/'));
                assert(all[i] == last.push(s.last()));
                if all[i].contains('/') {
                    let k = choose|k: int| 0 <= k < all[i].len() && all[i][k] == '/';
                    assert(k < last.len());
                    assert(last[k] == '/');
                }
            }
        }
    }
}

proof fn lemma_walk_proper(at: Seq<Seq<char>>, names: Seq<Seq<char>>)
    requires
        all_proper(at),
        forall|i: int| 0 <= i < names.len() ==> !(#[trigger] names[i]).contains('/'),
    ensures
        all_proper(walk(at, names)),
    decreases names.len(),
{
    if names.len() > 0 {
        let front = names.drop_last();
        assert forall|i: int| 0 <= i < front.len() implies !(#[trigger] front[i]).contains('/') by {
            assert(front[i] == names[i]);
        }
        lemma_walk_proper(at, front);
        assert(!names[names.len() - 1].contains('/'));
    }
}

/// A canonical path has only proper names, however the walk to it went; so it never
/// leads out of the root.
pub proof fn law_names_are_proper(cwd: Seq<char>, target: Seq<char>)
    ensures
        all_proper(names_of(cwd, target)),
{
    lemma_split_no_slash(cwd);
    lemma_split_no_slash(target);
    lemma_walk_proper(Seq::empty(), split_slash(cwd));
    let from = if is_absolute(target) {
        Seq::empty()
    } else {
        walk(Seq::empty(), split_slash(cwd))
    };
    lemma_walk_proper(from, split_slash(target));
}

proof fn lemma_split_push_name(s: Seq<char>, name: Seq<char>)
    requires
        !name.contains('/'),
    ensures
        split_slash(s.push('/') + name) == split_slash(s).push(name),
    decreases name.len(),
{
    let whole = s.push('/') + name;
    if name.len() == 0 {
        assert(whole =~= s.push('/'));
        assert(whole.drop_last() =~= s);
        assert(name =~= Seq::empty());
    } else {
        let front = name.drop_last();
        assert(!front.contains('/')) by {
            if front.contains('/') {
                let k = choose|k: int| 0 <= k < front.len() && front[k] == '/';
                assert(name[k] == '/');
            }
        }
        lemma_split_push_name(s, front);
        assert(whole.drop_last() =~= s.push('/') + front);
        assert(name[name.len() - 1] != '/') by {
            if name[name.len() - 1] == '/' {
                assert(name.contains('/'));
            }
        }
        assert(split_slash(s).push(front).drop_last() =~= split_slash(s));
        assert(front.push(name.last()) =~= name);
    }
}

/// A name without a slash is its own only part.
pub proof fn lemma_split_name(name: Seq<char>)
    requires
        !name.contains('/'),
    ensures
        split_slash(name) == seq![name],
    decreases name.len(),
{
    if name.len() == 0 {
        assert(name =~= Seq::empty());
    } else {
        let front = name.drop_last();
        assert(!front.contains('/')) by {
            if front.contains('/') {
                let k = choose|k: int| 0 <= k < front.len() && front[k] == '/';
                assert(name[k] == '/');
            }
        }
        assert(name[name.len() - 1] != '/') by {
            if name[name.len() - 1] == '/' {
                assert(name.contains('/'));
            }
        }
        lemma_split_name(front);
        assert(front.push(name.last()) =~= name);
        assert(split_slash(name) =~= seq![name]);
    }
}

/// The parts of names with a slash in front of each are these names, behind an empty part.
pub proof fn lemma_split_slashed(names: Seq<Seq<char>>)
    requires
        all_proper(names),
    ensures
        split_slash(slashed(names)) == seq![Seq::<char>::empty()] + names,
    decreases names.len(),
{
    if names.len() == 0 {
        assert(split_slash(slashed(names)) =~= seq![Seq::<char>::empty()] + names);
    } else {
        let front = names.drop_last();
        assert forall|i: int| 0 <= i < front.len() implies is_proper(#[trigger] front[i]) by {
            assert(front[i] == names[i]);
        }
        lemma_split_slashed(front);
        assert(is_proper(names[names.len() - 1]));
        lemma_split_push_name(slashed(front), names.last());
        assert((seq![Seq::<char>::empty()] + front).push(names.last()) =~= seq![
            Seq::<char>::empty(),
        ] + names);
    }
}

proof fn lemma_walk_down(names: Seq<Seq<char>>)
    requires
        all_proper(names),
    ensures
        walk(Seq::empty(), seq![Seq::<char>::empty()] + names) == names,
    decreases names.len(),
{
    let all = seq![Seq::<char>::empty()] + names;
    if names.len() == 0 {
        assert(all.drop_last() =~= Seq::empty());
        assert(walk(Seq::empty(), all.drop_last()) =~= Seq::empty());
        assert(all.last() == Seq::<char>::empty());
        assert(names =~= Seq::empty());
    } else {
        let front = names.drop_last();
        assert forall|i: int| 0 <= i < front.len() implies is_proper(#[trigger] front[i]) by {
            assert(front[i] == names[i]);
        }
        lemma_walk_down(front);
        assert(all.drop_last() =~= seq![Seq::<char>::empty()] + front);
        assert(is_proper(names[names.len() - 1]));
        assert(front.push(names.last()) =~= names);
    }
}

/// A canonical path leads where it was taken from: its names are those it was made of.
pub proof fn law_render_is_faithful(cwd: Seq<char>, names: Seq<Seq<char>>)
    requires
        all_proper(names),
    ensures
        is_absolute(render(names)),
        names_of(cwd, render(names)) == names,
{
    if names.len() == 0 {
        reveal_with_fuel(split_slash, 3);
        reveal_with_fuel(walk, 3);
        let root = seq!['/'];
        assert(root.drop_last() =~= Seq::empty());
        let e: Seq<Seq<char>> = seq![Seq::<char>::empty()];
        assert(split_slash(root) =~= e.push(Seq::empty()));
        let parts = split_slash(root);
        assert(parts.drop_last() =~= e);
        assert(e.drop_last() =~= Seq::empty());
        assert(walk(Seq::empty(), e) =~= Seq::empty());
        assert(walk(Seq::empty(), parts) =~= names);
    } else {
        lemma_slashed_absolute(names);
        lemma_split_slashed(names);
        lemma_walk_down(names);
    }
}

proof fn lemma_slashed_absolute(names: Seq<Seq<char>>)
    requires
        names.len() > 0,
    ensures
        is_absolute(slashed(names)),
    decreases names.len(),
{
    if names.len() > 1 {
        lemma_slashed_absolute(names.drop_last());
    } else {
        assert(slashed(names.drop_last()) =~= Seq::empty());
    }
}

/// Normalizing is done once: a canonical path stays as it is, wherever it is seen from.
pub proof fn law_normalize_is_idempotent(cwd: Seq<char>, target: Seq<char>, elsewhere: Seq<char>)
    ensures
        normalized(elsewhere, normalized(cwd, target)) == normalized(cwd, target),
{
    law_names_are_proper(cwd, target);
    law_render_is_faithful(elsewhere, names_of(cwd, target));
}

/// Only the directory that a path is seen from matters, not how it is written.
pub proof fn law_cwd_may_be_normalized(cwd: Seq<char>, target: Seq<char>, elsewhere: Seq<char>)
    requires
        is_absolute(cwd) || is_absolute(target),
    ensures
        normalized(normalized(elsewhere, cwd), target) == normalized(cwd, target),
{
    law_names_are_proper(elsewhere, cwd);
    law_render_is_faithful(elsewhere, names_of(elsewhere, cwd));
    assert(is_absolute(normalized(elsewhere, cwd)));
}

proof fn lemma_split_join(a: Seq<char>, b: Seq<char>)
    ensures
        split_slash(a.push('/') + b) == split_slash(a) + split_slash(b),
    decreases b.len(),
{
    let whole = a.push('/') + b;
    if b.len() == 0 {
        assert(whole =~= a.push('/'));
        assert(whole.drop_last() =~= a);
        assert(split_slash(a).push(Seq::empty()) =~= split_slash(a) + split_slash(b));
    } else {
        let front = b.drop_last();
        lemma_split_join(a, front);
        lemma_split_nonempty(front);
        assert(whole.drop_last() =~= a.push('/') + front);
        assert(whole.last() == b.last());
        let parts = split_slash(a) + split_slash(front);
        assert(parts.last() == split_slash(front).last());
        assert(parts.drop_last() =~= split_slash(a) + split_slash(front).drop_last());
        assert(split_slash(whole) =~= split_slash(a) + split_slash(b));
    }
}

proof fn lemma_walk_on(at: Seq<Seq<char>>, a: Seq<Seq<char>>, b: Seq<Seq<char>>)
    ensures
        walk(at, a + b) == walk(walk(at, a), b),
    decreases b.len(),
{
    if b.len() == 0 {
        assert(a + b =~= a);
    } else {
        lemma_walk_on(at, a, b.drop_last());
        assert((a + b).drop_last() =~= a + b.drop_last());
        assert((a + b).last() == b.last());
    }
}

/// A path may be walked in two stretches: from the directory that the first part leads to,
/// the rest leads to where both lead together.
pub proof fn law_normalize_in_two_stretches(cwd: Seq<char>, first: Seq<char>, rest: Seq<char>)
    requires
        first.len() > 0,
        !is_absolute(rest),
    ensures
        normalized(normalized(cwd, first), rest) == normalized(cwd, first.push('/') + rest),
{
    let whole = first.push('/') + rest;
    assert(is_absolute(whole) == is_absolute(first)) by {
        assert(whole[0] == first[0]);
    }
    let from = if is_absolute(first) {
        Seq::empty()
    } else {
        walk(Seq::empty(), split_slash(cwd))
    };
    lemma_split_join(first, rest);
    lemma_walk_on(from, split_slash(first), split_slash(rest));
    law_names_are_proper(cwd, first);
    law_render_is_faithful(cwd, names_of(cwd, first));
    assert(is_absolute(normalized(cwd, first)));
}

} // verus!
