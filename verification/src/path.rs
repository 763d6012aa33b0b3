//! File paths as text, read the way POSIX paths are: parts between slashes, in which an empty part
//! or a `.` says nothing.

use vstd::prelude::*;

use crate::text;
use crate::text::{opt_text, precedes, split_on, texts};

verus! {

/// A part that says something.
pub open spec fn says_something(part: Seq<char>) -> bool {
    part.len() > 0 && part != "."@
}

/// The parts of a path that say something, in order.
pub open spec fn parts(path: Seq<char>) -> Seq<Seq<char>> {
    split_on(path, '/').filter(|p: Seq<char>| says_something(p))
}

/// The path starts at the root.
pub open spec fn is_absolute(path: Seq<char>) -> bool {
    path.len() > 0 && path[0] == '/'
}

/// The last part of a path, where that is a name.
pub open spec fn name_of(path: Seq<char>) -> Option<Seq<char>> {
    let p = parts(path);
    if p.len() > 0 && p.last() != ".."@ {
        Some(p.last())
    } else {
        None
    }
}

/// `b` as seen from the directory `a`.
pub open spec fn joined(a: Seq<char>, b: Seq<char>) -> Seq<char> {
    if is_absolute(b) || a.len() == 0 {
        b
    } else if a.last() == '/' {
        a + b
    } else {
        a.push('/') + b
    }
}

/// The parts of a path that say something, in order.
pub fn path_parts(path: &str) -> (out: Vec<String>)
    ensures
        texts(out@) == parts(path@),
{
    let all = text::split(path, '/');
    let ghost keep = |p: Seq<char>| says_something(p);
    let mut out: Vec<String> = Vec::new();
    let mut i: usize = 0;
    while i < all.len()
        invariant
            i <= all.len(),
            keep == (|p: Seq<char>| says_something(p)),
            texts(out@) == texts(all@).take(i as int).filter(keep),
        decreases all.len() - i,
    {
        proof {
            let seen = texts(all@).take(i as int);
            assert(texts(all@).take(i + 1) == seen.push(all@[i as int]@));
            seen.lemma_filter_push(all@[i as int]@, keep);
        }
        let part = &all[i];
        if !part.as_str().is_empty() && !text::same(part.as_str(), ".") {
            out.push(part.clone());
            proof {
                text::lemma_texts_push(out@.drop_last(), out@.last());
                assert(out@.drop_last().push(out@.last()) == out@);
            }
        }
        i = i + 1;
    }
    assert(texts(all@).take(all@.len() as int) == texts(all@));
    out
}

/// Whether the path starts at the root.
pub fn absolute(path: &str) -> (yes: bool)
    ensures
        yes == is_absolute(path@),
{
    let v = text::chars_of(path);
    v.len() > 0 && v[0] == '/'
}

/// The last part of a path, where that is a name.
pub fn file_name(path: &str) -> (name: Option<String>)
    ensures
        opt_text(name) == name_of(path@),
{
    let p = path_parts(path);
    if p.len() > 0 && !text::same(p[p.len() - 1].as_str(), "..") {
        Some(p[p.len() - 1].clone())
    } else {
        None
    }
}

/// `b` as seen from the directory `a`.
pub fn join(a: &str, b: &str) -> (path: String)
    ensures
        path@ == joined(a@, b@),
{
    let v = text::chars_of(a);
    if absolute(b) || v.len() == 0 {
        return b.to_owned();
    }
    let mut path = a.to_owned();
    if v[v.len() - 1] != '/' {
        path.push('/');
    }
    path.append(b);
    path
}

/// The path without the slashes and the `.` at its end, of which it says nothing. The root stays.
pub open spec fn without_tail(path: Seq<char>) -> Seq<char>
    decreases path.len(),
{
    if path.len() > 1 && (path.last() == '/' || (path.last() == '.' && path[path.len() - 2] == '/')) {
        without_tail(path.drop_last())
    } else {
        path
    }
}

/// The directory that holds what a path names. The root and the empty path are in none.
pub open spec fn parent_of(path: Seq<char>) -> Option<Seq<char>> {
    let p = without_tail(path);
    if p.len() == 0 || p == "/"@ {
        None
    } else {
        Some(without_tail(p.take(after_last_slash(p))))
    }
}

/// The index behind the last slash.
pub open spec fn after_last_slash(path: Seq<char>) -> int
    decreases path.len(),
{
    if path.len() == 0 || path.last() == '/' {
        path.len() as int
    } else {
        after_last_slash(path.drop_last())
    }
}

fn tail_start(v: &[char], end: usize) -> (n: usize)
    requires
        end <= v.len(),
    ensures
        n <= end,
        v@.take(n as int) == without_tail(v@.take(end as int)),
{
    let mut n: usize = end;
    while n > 1 && (v[n - 1] == '/' || (v[n - 1] == '.' && v[n - 2] == '/'))
        invariant
            n <= end <= v.len(),
            without_tail(v@.take(n as int)) == without_tail(v@.take(end as int)),
        decreases n,
    {
        assert(v@.take(n as int).drop_last() =~= v@.take(n - 1));
        n = n - 1;
    }
    n
}

/// The directory that holds what a path names.
pub fn parent(path: &str) -> (dir: Option<String>)
    ensures
        opt_text(dir) == parent_of(path@),
{
    let v = text::chars_of(path);
    assert(v@.take(v@.len() as int) == v@);
    let end = tail_start(&v, v.len());
    let ghost p = v@.take(end as int);
    proof {
        reveal_strlit("/");
    }
    if end == 0 || (end == 1 && v[0] == '/') {
        assert(end == 1 ==> p =~= "/"@);
        return None;
    }
    let mut n: usize = end;
    while n > 0 && v[n - 1] != '/'
        invariant
            n <= end <= v.len(),
            after_last_slash(v@.take(n as int)) == after_last_slash(v@.take(end as int)),
        decreases n,
    {
        assert(v@.take(n as int).drop_last() =~= v@.take(n - 1));
        n = n - 1;
    }
    let stop = tail_start(&v, n);
    assert(p.take(n as int) =~= v@.take(n as int));
    assert(v@.take(stop as int) =~= v@.subrange(0, stop as int));
    Some(text::text_between(&v, 0, stop))
}

/// The path starts with `.`, which is then one of its components.
pub open spec fn starts_at_dot(path: Seq<char>) -> bool {
    split_on(path, '/')[0] == "."@
}

/// What a path says: whether it starts at the root, whether it starts with `.`, and its parts.
pub open spec fn meaning(path: Seq<char>) -> (bool, bool, Seq<Seq<char>>) {
    (is_absolute(path), starts_at_dot(path), parts(path))
}

/// The path is `dir`, or stands somewhere below it.
pub open spec fn is_within(path: Seq<char>, dir: Seq<char>) -> bool {
    let (root, dot, names) = meaning(path);
    let (dir_root, dir_dot, dir_names) = meaning(dir);
    if !dir_root && !dir_dot && dir_names.len() == 0 {
        true
    } else {
        root == dir_root && dot == dir_dot && dir_names.is_prefix_of(names)
    }
}

fn at_dot(path: &str) -> (yes: bool)
    ensures
        yes == starts_at_dot(path@),
{
    let all = text::split(path, '/');
    assert(texts(all@)[0] == all@[0]@);
    text::same(all[0].as_str(), ".")
}

/// Whether the path is `dir`, or stands somewhere below it.
pub fn within(path: &str, dir: &str) -> (yes: bool)
    ensures
        yes == is_within(path@, dir@),
{
    let names = path_parts(path);
    let dir_names = path_parts(dir);
    let dir_root = absolute(dir);
    let dir_dot = at_dot(dir);
    assert(names@.len() == parts(path@).len());
    assert(dir_names@.len() == parts(dir@).len());
    if !dir_root && !dir_dot && dir_names.len() == 0 {
        return true;
    }
    if absolute(path) != dir_root || at_dot(path) != dir_dot || dir_names.len() > names.len() {
        return false;
    }
    let mut i: usize = 0;
    while i < dir_names.len()
        invariant
            i <= dir_names.len() <= names.len(),
            texts(names@) == parts(path@),
            texts(dir_names@) == parts(dir@),
            is_absolute(path@) == is_absolute(dir@),
            starts_at_dot(path@) == starts_at_dot(dir@),
            is_absolute(dir@) || starts_at_dot(dir@) || dir_names@.len() > 0,
            forall|k: int| 0 <= k < i ==> #[trigger] parts(path@)[k] == parts(dir@)[k],
        decreases dir_names.len() - i,
    {
        assert(parts(path@)[i as int] == names@[i as int]@);
        assert(parts(dir@)[i as int] == dir_names@[i as int]@);
        if !text::same(names[i].as_str(), dir_names[i].as_str()) {
            assert(!parts(dir@).is_prefix_of(parts(path@))) by {
                if parts(dir@).is_prefix_of(parts(path@)) {
                    assert(parts(path@).subrange(0, parts(dir@).len() as int)[i as int] == parts(dir@)[i as int]);
                }
            }
            return false;
        }
        i = i + 1;
    }
    assert(parts(path@).subrange(0, parts(dir@).len() as int) =~= parts(dir@));
    true
}

/// Two paths say the same.
pub open spec fn same_place(a: Seq<char>, b: Seq<char>) -> bool {
    meaning(a) == meaning(b)
}

/// Whether two paths say the same.
pub fn same_path(a: &str, b: &str) -> (yes: bool)
    ensures
        yes == same_place(a@, b@),
{
    let an = path_parts(a);
    let bn = path_parts(b);
    if absolute(a) != absolute(b) || at_dot(a) != at_dot(b) {
        return false;
    }
    assert(an@.len() == parts(a@).len());
    assert(bn@.len() == parts(b@).len());
    if an.len() != bn.len() {
        return false;
    }
    let mut i: usize = 0;
    while i < an.len()
        invariant
            i <= an.len() == bn.len(),
            texts(an@) == parts(a@),
            texts(bn@) == parts(b@),
            is_absolute(a@) == is_absolute(b@),
            starts_at_dot(a@) == starts_at_dot(b@),
            forall|k: int| 0 <= k < i ==> #[trigger] parts(a@)[k] == parts(b@)[k],
        decreases an.len() - i,
    {
        assert(parts(a@)[i as int] == an@[i as int]@);
        assert(parts(b@)[i as int] == bn@[i as int]@);
        if !text::same(an[i].as_str(), bn[i].as_str()) {
            return false;
        }
        i = i + 1;
    }
    assert(parts(a@) =~= parts(b@));
    true
}

/// What a path is made of, in order: `/` where it starts at the root, `.` where it starts with that,
/// and its parts.
pub open spec fn components(path: Seq<char>) -> Seq<Seq<char>> {
    (if is_absolute(path) {
        seq!["/"@]
    } else if starts_at_dot(path) {
        seq!["."@]
    } else {
        seq![]
    }) + parts(path)
}

/// The root comes before `.`, that before `..`, and that before a name.
pub open spec fn rank(component: Seq<char>) -> int {
    if component == "/"@ {
        0
    } else if component == "."@ {
        1
    } else if component == ".."@ {
        2
    } else {
        3
    }
}

/// A component of a path comes before another.
pub open spec fn component_precedes(a: Seq<char>, b: Seq<char>) -> bool {
    rank(a) < rank(b) || (rank(a) == 3 && rank(b) == 3 && precedes(a, b))
}

/// A list of components comes before another: at the first place where they differ it has the earlier
/// component, or it ends there.
pub open spec fn components_precede(a: Seq<Seq<char>>, b: Seq<Seq<char>>) -> bool
    decreases a.len(),
{
    if b.len() == 0 {
        false
    } else if a.len() == 0 {
        true
    } else if a[0] != b[0] {
        component_precedes(a[0], b[0])
    } else {
        components_precede(a.drop_first(), b.drop_first())
    }
}

/// A path comes before another, compared component by component.
pub open spec fn path_precedes(a: Seq<char>, b: Seq<char>) -> bool {
    components_precede(components(a), components(b))
}

fn path_components(path: &str) -> (all: Vec<String>)
    ensures
        texts(all@) == components(path@),
{
    let mut names = path_parts(path);
    let ghost tail = names@;
    let mut all: Vec<String> = Vec::new();
    if absolute(path) {
        all.push("/".to_owned());
    } else if at_dot(path) {
        all.push(".".to_owned());
    }
    let ghost head = all@;
    all.append(&mut names);
    assert(texts(all@) =~= texts(head) + texts(tail));
    assert(texts(head) + texts(tail) =~= components(path@));
    all
}

fn component_rank(component: &str) -> (r: u8)
    ensures
        r == rank(component@),
{
    proof {
        reveal_strlit("/");
        reveal_strlit(".");
        reveal_strlit("..");
        assert("/"@[0] == '/');
        assert("."@[0] == '.');
        assert("."@.len() == 1);
        assert(".."@.len() == 2);
        assert("/"@.len() == 1);
    }
    if text::same(component, "/") {
        0
    } else if text::same(component, ".") {
        1
    } else if text::same(component, "..") {
        2
    } else {
        3
    }
}

/// Whether a path comes before another, compared component by component.
pub fn path_before(a: &str, b: &str) -> (yes: bool)
    ensures
        yes == path_precedes(a@, b@),
{
    let av = path_components(a);
    let bv = path_components(b);
    let ghost at = texts(av@);
    let ghost bt = texts(bv@);
    let mut i: usize = 0;
    assert(at.skip(0) =~= at);
    assert(bt.skip(0) =~= bt);
    while i < av.len() && i < bv.len()
        invariant
            i <= av.len(),
            i <= bv.len(),
            at == texts(av@),
            bt == texts(bv@),
            at == components(a@),
            bt == components(b@),
            components_precede(at, bt) == components_precede(at.skip(i as int), bt.skip(i as int)),
        decreases av.len() - i,
    {
        assert(at.skip(i as int).drop_first() =~= at.skip(i + 1));
        assert(bt.skip(i as int).drop_first() =~= bt.skip(i + 1));
        assert(at.skip(i as int)[0] == av@[i as int]@);
        assert(bt.skip(i as int)[0] == bv@[i as int]@);
        if !text::same(av[i].as_str(), bv[i].as_str()) {
            let ar = component_rank(av[i].as_str());
            let br = component_rank(bv[i].as_str());
            return ar < br || (ar == 3 && br == 3 && text::before(av[i].as_str(), bv[i].as_str()));
        }
        i = i + 1;
    }
    i < bv.len()
}

proof fn lemma_component_order(a: Seq<char>, b: Seq<char>)
    ensures
        a != b ==> component_precedes(a, b) != component_precedes(b, a),
        a == b ==> !component_precedes(a, b),
{
    text::lemma_precedes_total(a, b);
}

proof fn lemma_components_total(a: Seq<Seq<char>>, b: Seq<Seq<char>>)
    ensures
        a != b ==> components_precede(a, b) != components_precede(b, a),
        a == b ==> !components_precede(a, b),
    decreases a.len(),
{
    if a.len() > 0 && b.len() > 0 {
        if a[0] == b[0] {
            let (x, y) = (a.drop_first(), b.drop_first());
            lemma_components_total(x, y);
            if x == y {
                assert(a =~= seq![a[0]] + x);
                assert(b =~= seq![b[0]] + y);
            }
        } else {
            lemma_component_order(a[0], b[0]);
        }
    } else if a.len() == 0 && b.len() == 0 {
        assert(a =~= b);
    }
}

proof fn lemma_components_transitive(a: Seq<Seq<char>>, b: Seq<Seq<char>>, c: Seq<Seq<char>>)
    requires
        components_precede(a, b),
        components_precede(b, c),
    ensures
        components_precede(a, c),
    decreases a.len(),
{
    if a.len() > 0 {
        if a[0] == b[0] && b[0] == c[0] {
            lemma_components_transitive(a.drop_first(), b.drop_first(), c.drop_first());
        } else if a[0] != b[0] && b[0] != c[0] {
            if rank(a[0]) == 3 && rank(b[0]) == 3 && rank(c[0]) == 3 {
                text::lemma_precedes_transitive(a[0], b[0], c[0]);
            }
            lemma_component_order(a[0], b[0]);
            lemma_component_order(b[0], c[0]);
            lemma_component_order(a[0], c[0]);
            text::lemma_precedes_total(a[0], b[0]);
            text::lemma_precedes_total(a[0], a[0]);
        }
    }
}

/// Paths are ordered: none comes before itself, of two that are made of different components one comes
/// first, and what comes before a path comes before all that follow it.
pub proof fn law_paths_are_ordered(a: Seq<char>, b: Seq<char>, c: Seq<char>)
    ensures
        !path_precedes(a, a),
        components(a) != components(b) ==> path_precedes(a, b) != path_precedes(b, a),
        path_precedes(a, b) && path_precedes(b, c) ==> path_precedes(a, c),
{
    lemma_components_total(components(a), components(a));
    lemma_components_total(components(a), components(b));
    if path_precedes(a, b) && path_precedes(b, c) {
        lemma_components_transitive(components(a), components(b), components(c));
    }
}

/// What is seen from a directory stands in it: its parts are those of the directory and then its own.
pub proof fn law_joined_is_within(dir: Seq<char>, path: Seq<char>)
    requires
        dir.len() > 0,
        !is_absolute(path),
    ensures
        parts(joined(dir, path)) == parts(dir) + parts(path),
        is_within(joined(dir, path), dir),
{
    let whole = joined(dir, path);
    let keep = |p: Seq<char>| says_something(p);
    // The directory without a slash at its end.
    let head = if dir.last() == '/' {
        dir.drop_last()
    } else {
        dir
    };
    assert(whole =~= head.push('/') + path);
    text::lemma_split_on_concat(head, path, '/');
    text::lemma_split_on_nonempty(head, '/');
    Seq::filter_distributes_over_add(split_on(head, '/'), split_on(path, '/'), keep);
    if dir.last() == '/' {
        assert(split_on(dir, '/') == split_on(head, '/').push(seq![]));
        split_on(head, '/').lemma_filter_push(seq![], keep);
    }
    assert(parts(dir) == parts(head));
    assert(parts(dir).is_prefix_of(parts(whole)));
    assert(split_on(whole, '/')[0] == split_on(dir, '/')[0]);
    assert(whole[0] == dir[0]);
}

/// Every path stands in the empty one, which names no directory at all.
pub proof fn law_everything_is_within_the_empty_path(path: Seq<char>)
    ensures
        is_within(path, seq![]),
{
    let none = Seq::<char>::empty();
    let keep = |p: Seq<char>| says_something(p);
    let all = split_on(none, '/');
    reveal_strlit(".");
    assert(all =~= Seq::<Seq<char>>::empty().push(none));
    Seq::<Seq<char>>::empty().lemma_filter_push(none, keep);
    Seq::<Seq<char>>::empty().lemma_filter_len(keep);
    assert(parts(none).len() == 0);
    assert(!starts_at_dot(none));
}

proof fn lemma_last_slash(dir: Seq<char>, name: Seq<char>)
    requires
        forall|k: int| 0 <= k < name.len() ==> name[k] != '/',
    ensures
        after_last_slash(dir.push('/') + name) == dir.len() + 1,
    decreases name.len(),
{
    let whole = dir.push('/') + name;
    if name.len() > 0 {
        assert(whole.drop_last() =~= dir.push('/') + name.drop_last());
        lemma_last_slash(dir, name.drop_last());
    }
}

/// A name seen from a directory is in that directory, and is the name of the path. The directory is one
/// that says something to its end.
pub proof fn law_a_name_is_in_its_directory(dir: Seq<char>, name: Seq<char>)
    requires
        dir.len() > 0,
        dir.last() != '/',
        dir.last() != '.',
        name.len() > 0,
        name != "."@,
        name != ".."@,
        forall|k: int| 0 <= k < name.len() ==> name[k] != '/',
        parts(name) == seq![name],
    ensures
        parent_of(joined(dir, name)) == Some(dir),
        name_of(joined(dir, name)) == Some(name),
{
    let whole = joined(dir, name);
    reveal_strlit(".");
    reveal_strlit("/");
    law_joined_is_within(dir, name);
    assert(whole == dir.push('/') + name);
    assert(whole.last() == name.last());
    if whole.last() == '.' && whole[whole.len() - 2] == '/' {
        if name.len() > 1 {
            assert(whole[whole.len() - 2] == name[name.len() - 2]);
        }
        assert(name =~= "."@);
    }
    assert(without_tail(whole) == whole);
    lemma_last_slash(dir, name);
    let above = whole.take((dir.len() + 1) as int);
    assert(above =~= dir.push('/'));
    assert(above.drop_last() =~= dir);
    assert(without_tail(dir) == dir);
    assert(without_tail(above) == dir);
}

proof fn lemma_components_past_prefix(head: Seq<Seq<char>>, x: Seq<Seq<char>>, y: Seq<Seq<char>>)
    ensures
        components_precede(head + x, head + y) == components_precede(x, y),
    decreases head.len(),
{
    if head.len() > 0 {
        let rest = head.drop_first();
        lemma_components_past_prefix(rest, x, y);
        assert((head + x).drop_first() =~= rest + x);
        assert((head + y).drop_first() =~= rest + y);
        assert((head + x)[0] == head[0] && (head + y)[0] == head[0]);
        if y.len() == 0 && x.len() == 0 {
            assert(head + x =~= head + y);
        }
    } else {
        assert(head + x =~= x);
        assert(head + y =~= y);
    }
}

/// What stands in one directory is ordered by name, and comes behind the directory.
pub proof fn law_siblings_are_ordered_by_name(dir: Seq<char>, a: Seq<char>, b: Seq<char>)
    requires
        is_absolute(dir),
        !is_absolute(a),
        !is_absolute(b),
        parts(a) == seq![a],
        parts(b) == seq![b],
        a != ".."@,
        b != ".."@,
        a != "/"@,
        b != "/"@,
    ensures
        path_precedes(joined(dir, a), joined(dir, b)) == precedes(a, b),
        path_precedes(dir, joined(dir, a)),
{
    law_joined_is_within(dir, a);
    law_joined_is_within(dir, b);
    let head = seq!["/"@] + parts(dir);
    let keep = |p: Seq<char>| says_something(p);
    assert(parts(a)[0] == a && parts(b)[0] == b);
    split_on(a, '/').lemma_filter_pred(keep, 0);
    split_on(b, '/').lemma_filter_pred(keep, 0);
    assert(components(joined(dir, a)) =~= head + seq![a]);
    assert(components(joined(dir, b)) =~= head + seq![b]);
    assert(components(dir) =~= head);
    lemma_components_past_prefix(head, seq![a], seq![b]);
    lemma_components_past_prefix(head, seq![], seq![a]);
    assert(head + Seq::<Seq<char>>::empty() =~= head);
    assert(rank(a) == 3 && rank(b) == 3);
    text::lemma_precedes_total(a, b);
    assert(seq![a].drop_first() =~= Seq::<Seq<char>>::empty());
    assert(seq![b].drop_first() =~= Seq::<Seq<char>>::empty());
    assert(seq![a][0] == a && seq![b][0] == b);
    assert(!components_precede(Seq::<Seq<char>>::empty(), Seq::<Seq<char>>::empty()));
    assert(components_precede(seq![a], seq![b]) == (if a != b {
        component_precedes(a, b)
    } else {
        components_precede(seq![a].drop_first(), seq![b].drop_first())
    }));
}

/// An absolute path is the same seen from anywhere, and a directory with a slash at its end is the same
/// directory.
pub proof fn law_where_a_path_is_seen_from(a: Seq<char>, b: Seq<char>)
    ensures
        is_absolute(b) ==> joined(a, b) == b,
        a.len() == 0 ==> joined(a, b) == b,
        a.len() > 0 && a.last() != '/' && !is_absolute(b) ==> joined(a.push('/'), b) == joined(a, b),
        a.len() > 0 && a.last() != '/' && !is_absolute(b) ==> joined(a, b) == a + seq!['/'] + b,
{
    assert(a + seq!['/'] + b =~= a.push('/') + b);
}

/// A slash at the end of a path says nothing about where it is; a bare name is in the directory that is
/// looked from; and the root is in none.
pub proof fn law_what_a_path_is_in(path: Seq<char>, name: Seq<char>)
    requires
        path.len() > 0,
        name.len() > 0,
        !name.contains('/'),
    ensures
        parent_of(path.push('/')) == parent_of(path),
        name[0] != '.' ==> parent_of(name) == Some(Seq::<char>::empty()),
        parent_of(seq!['/']) is None,
        parent_of(seq![]) is None,
{
    reveal_strlit("/");
    assert("/"@ =~= seq!['/']);
    assert(path.push('/').drop_last() =~= path);
    assert(name.contains(name.last()));
    assert(name.len() > 1 ==> name.contains(name[name.len() - 2]));
    assert(without_tail(name) == name);
    assert(name.contains(name[0]));
    lemma_no_slash(name);
    assert(name.take(0) =~= Seq::<char>::empty());
    assert(without_tail(Seq::<char>::empty()) == Seq::<char>::empty());
}

proof fn lemma_no_slash(name: Seq<char>)
    requires
        !name.contains('/'),
    ensures
        after_last_slash(name) == 0,
    decreases name.len(),
{
    if name.len() > 0 {
        assert(name.contains(name.last()));
        assert forall|k: int| 0 <= k < name.drop_last().len() implies name.drop_last()[k] != '/' by {
            assert(name.contains(name[k]));
        }
        lemma_no_slash(name.drop_last());
    }
}

/// What stands in one directory under different names does not stand in each other, however the names begin;
/// nor does a directory stand in what it holds.
pub proof fn law_siblings_are_apart(dir: Seq<char>, a: Seq<char>, b: Seq<char>)
    requires
        dir.len() > 0,
        !is_absolute(a),
        !is_absolute(b),
        parts(a) == seq![a],
        parts(b) == seq![b],
        a != b,
    ensures
        !is_within(joined(dir, a), joined(dir, b)),
        !is_within(dir, joined(dir, a)),
{
    law_joined_is_within(dir, a);
    law_joined_is_within(dir, b);
    let x = parts(joined(dir, a));
    let y = parts(joined(dir, b));
    assert(x.last() == a && y.last() == b);
    assert(x.len() == y.len());
    if y.is_prefix_of(x) {
        assert(y[y.len() - 1] == x[y.len() - 1]);
    }
}

} // verus!
