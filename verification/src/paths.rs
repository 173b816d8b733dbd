//! Paths as texts with `/` between their parts.
//!
//! Two paths are compared part by part: empty parts count for nothing, and neither
//! does `.` except at the start of a path that has no root.
use vstd::prelude::*;
use crate::text::{pieces, pieces_lie_between_the_marks, same_text, split_on, starts_with, views};

verus! {

broadcast use vstd::string::group_string_axioms;

/// The pieces that name something.
pub open spec fn named(ps: Seq<Seq<char>>) -> Seq<Seq<char>>
    decreases ps.len(),
{
    if ps.len() == 0 {
        Seq::empty()
    } else {
        let head = named(ps.drop_last());
        if ps.last().len() == 0 || ps.last() == "."@ {
            head
        } else {
            head.push(ps.last())
        }
    }
}

/// The parts of a path in order; `/` stands for the root.
pub open spec fn parts(path: Seq<char>) -> Seq<Seq<char>> {
    let ps = pieces(path, '/');
    if path.len() > 0 && path[0] == '/' {
        seq!["/"@] + named(ps)
    } else if ps[0] == "."@ {
        seq!["."@] + named(ps)
    } else {
        named(ps)
    }
}

/// Whether `path` is `base` or lies below it.
pub open spec fn lies_under(path: Seq<char>, base: Seq<char>) -> bool {
    parts(base).is_prefix_of(parts(path))
}

fn is_rooted(path: &str) -> (r: bool)
    ensures
        r == (path@.len() > 0 && path@[0] == '/'),
{
    proof {
        reveal_strlit("/");
    }
    let r = starts_with(path, "/");
    assert("/"@.len() == 1 && "/"@[0] == '/');
    proof {
        if path@.len() > 0 && path@[0] == '/' {
            assert(path@.subrange(0, 1) =~= "/"@);
        }
        if r {
            assert(path@.subrange(0, 1)[0] == path@[0]);
        }
    }
    r
}

pub fn path_parts(path: &str) -> (r: Vec<String>)
    ensures
        views(r@) == parts(path@),
{
    let all = split_on(path, '/');
    let ghost ps = pieces(path@, '/');
    let mut r: Vec<String> = Vec::new();
    assert(views(all@)[0] == all@[0]@);
    let ghost mut head: Seq<Seq<char>> = Seq::empty();
    if is_rooted(path) {
        r.push("/".to_string());
        proof {
            head = seq!["/"@];
        }
    } else if same_text(&all[0], ".") {
        r.push(".".to_string());
        proof {
            head = seq!["."@];
        }
    }
    assert(views(r@) =~= head + named(ps.take(0)));
    let mut i: usize = 0;
    while i < all.len()
        invariant
            i <= all@.len(),
            views(all@) == ps,
            views(r@) == head + named(ps.take(i as int)),
        decreases all@.len() - i,
    {
        let ghost before = r@;
        let ghost next = ps.take(i + 1);
        assert(next.drop_last() =~= ps.take(i as int));
        assert(next.last() == all@[i as int]@);
        if !(all[i].as_str().is_empty() || same_text(&all[i], ".")) {
            r.push(all[i].clone());
            assert(views(r@) =~= views(before).push(all@[i as int]@));
            assert(views(r@) =~= head + named(next));
        }
        i = i + 1;
    }
    assert(ps.take(ps.len() as int) =~= ps);
    assert(views(r@) =~= parts(path@));
    r
}

/// `Path::starts_with` for paths with `/` between their parts.
pub fn path_starts_with(path: &str, base: &str) -> (r: bool)
    ensures
        r == lies_under(path@, base@),
{
    let whole = path_parts(path);
    let head = path_parts(base);
    assert(views(whole@).len() == whole@.len() && views(head@).len() == head@.len());
    if head.len() > whole.len() {
        return false;
    }
    let mut i: usize = 0;
    while i < head.len()
        invariant
            i <= head@.len() <= whole@.len(),
            views(whole@) == parts(path@),
            views(head@) == parts(base@),
            forall|j: int|
                0 <= j < i ==> #[trigger] views(head@)[j] == views(whole@)[j],
        decreases head@.len() - i,
    {
        if !same_text(&head[i], &whole[i]) {
            assert(views(head@)[i as int] != views(whole@)[i as int]);
            assert(views(whole@).subrange(0, head@.len() as int)[i as int] == views(
                whole@,
            )[i as int]);
            return false;
        }
        i = i + 1;
    }
    assert(views(whole@).subrange(0, head@.len() as int) =~= views(head@));
    true
}

/// Whether two paths have the same parts.
pub fn same_path(a: &str, b: &str) -> (r: bool)
    ensures
        r == (parts(a@) == parts(b@)),
{
    let x = path_starts_with(a, b);
    let y = path_starts_with(b, a);
    proof {
        if x && y {
            assert(parts(a@) =~= parts(b@));
        }
        if parts(a@) == parts(b@) {
            assert(parts(a@).subrange(0, parts(a@).len() as int) =~= parts(a@));
        }
    }
    x && y
}

/// Everything below a path that lies under a base lies under that base too.
pub proof fn lying_under_is_transitive(a: Seq<char>, b: Seq<char>, c: Seq<char>)
    requires
        lies_under(a, b),
        lies_under(b, c),
    ensures
        lies_under(a, c),
{
    assert(parts(a).subrange(0, parts(c).len() as int) =~= parts(b).subrange(
        0,
        parts(c).len() as int,
    ));
}

/// The parts of a path are its names; what is empty or a dot is none, but for the root and a
/// dot in front.
pub proof fn what_the_parts_of_a_path_are(path: Seq<char>, name: Seq<char>, ps: Seq<Seq<char>>)
    requires
        name.len() > 0,
        name != "."@,
        !name.contains('/'),
    ensures
        named(Seq::empty()).len() == 0,
        named(ps.push(name)) == named(ps).push(name),
        named(ps.push(Seq::empty())) == named(ps),
        named(ps.push("."@)) == named(ps),
        parts(name) == seq![name],
        parts(seq!['/'] + name) == seq!["/"@, name],
{
    assert(ps.push(name).drop_last() =~= ps);
    assert(ps.push(Seq::empty()).drop_last() =~= ps);
    assert(ps.push("."@).drop_last() =~= ps);
    let none = Seq::<char>::empty();
    pieces_lie_between_the_marks(name, name, '/');
    pieces_lie_between_the_marks(none, name, '/');
    assert(none + seq!['/'] + name =~= seq!['/'] + name);
    reveal_with_fuel(named, 3);
    assert(seq![name].drop_last() =~= Seq::<Seq<char>>::empty());
    assert(named(seq![name]) =~= seq![name]);
    assert((seq![none] + seq![name]).drop_last() =~= seq![none]);
    assert(seq![none].drop_last() =~= Seq::<Seq<char>>::empty());
    assert(named(seq![none] + seq![name]) =~= seq![name]);
    if name[0] == '/' {
        assert(name.contains('/'));
    }
    assert(seq!["/"@] + seq![name] =~= seq!["/"@, name]);
}

/// A path lies under a base where it begins with the parts of the base.
pub proof fn when_a_path_lies_under(path: Seq<char>, base: Seq<char>, i: int)
    ensures
        lies_under(path, path),
        lies_under(path, base) ==> parts(base).len() <= parts(path).len() && (0 <= i < parts(
            base,
        ).len() ==> parts(path)[i] == parts(base)[i]),
        parts(path).len() < parts(base).len() ==> !lies_under(path, base),
        0 <= i < parts(base).len() && i < parts(path).len() && parts(path)[i] != parts(base)[i]
            ==> !lies_under(path, base),
{
    assert(parts(path).subrange(0, parts(path).len() as int) =~= parts(path));
    if lies_under(path, base) && 0 <= i < parts(base).len() {
        assert(parts(base)[i] == parts(path).subrange(0, parts(base).len() as int)[i]);
    }
}

} // verus!
