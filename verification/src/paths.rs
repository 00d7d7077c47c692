//! File paths as sequences of components, and the names derived from them.

use vstd::prelude::*;

verus! {

/// A path, one string per component, outermost first. An empty list is the
/// empty path.
#[derive(Debug)]
pub struct ImagePath {
    pub components: Vec<String>,
}

impl ImagePath {
    /// The components as sequences of characters.
    pub open spec fn parts(self) -> Seq<Seq<char>> {
        self.components.deep_view()
    }

    /// Makes a path of the given components.
    pub fn new(components: Vec<String>) -> (path: ImagePath)
        ensures
            path.parts() == components.deep_view(),
    {
        ImagePath { components }
    }

    /// A copy of the path.
    pub fn duplicate(&self) -> (copy: ImagePath)
        ensures
            copy.parts() == self.parts(),
    {
        let components = copy_components(&self.components, 0, self.components.len());
        assert(self.parts().subrange(0, self.parts().len() as int) =~= self.parts());
        ImagePath { components }
    }

    /// `self` with one more component at its end.
    pub fn child(&self, name: String) -> (path: ImagePath)
        ensures
            path.parts() == self.parts().push(name@),
    {
        let mut components = copy_components(&self.components, 0, self.components.len());
        let ghost before = components@;
        components.push(name);
        proof {
            assert(self.parts().subrange(0, self.parts().len() as int) =~= self.parts());
            assert forall|j: int| 0 <= j < components@.len() implies components.deep_view()[j]
                == self.parts().push(name@)[j] by {
                if j < before.len() {
                    assert(components@[j] == before[j]);
                }
            }
            assert(components.deep_view() =~= self.parts().push(name@));
        }
        ImagePath { components }
    }

    /// The path that leads from `base` to `self`, where `self` lies under
    /// `base` or is `base` itself.
    pub fn strip_prefix(&self, base: &ImagePath) -> (rest: Option<ImagePath>)
        ensures
            rest is Some <==> base.parts().is_prefix_of(self.parts()),
            rest matches Some(r) ==> r.parts() == self.parts().skip(base.parts().len() as int),
    {
        let n: usize = base.components.len();
        if n > self.components.len() {
            return None;
        }
        let mut i: usize = 0;
        while i < n
            invariant
                i <= n,
                n == base.components@.len(),
                n <= self.components@.len(),
                forall|j: int| 0 <= j < i ==> self.parts()[j] == base.parts()[j],
            decreases n - i,
        {
            if !(self.components[i] == base.components[i]) {
                assert(self.parts()[i as int] != base.parts()[i as int]);
                return None;
            }
            i += 1;
        }
        assert(base.parts() =~= self.parts().subrange(0, n as int));
        let rest = copy_components(&self.components, n, self.components.len());
        assert(self.parts().subrange(n as int, self.parts().len() as int) =~= self.parts().skip(
            n as int,
        ));
        Some(ImagePath { components: rest })
    }

    /// The path without its last component; the empty path stays empty.
    pub fn parent_or_empty(&self) -> (dir: ImagePath)
        ensures
            dir.parts() == without_last(self.parts()),
    {
        let n: usize = self.components.len();
        if n == 0 {
            assert(self.parts() =~= Seq::empty());
            ImagePath { components: Vec::new() }
        } else {
            let rest = copy_components(&self.components, 0, n - 1);
            assert(self.parts().subrange(0, n - 1) =~= self.parts().drop_last());
            ImagePath { components: rest }
        }
    }

    /// `self` followed by the components of `tail`.
    pub fn join(&self, tail: &ImagePath) -> (joined: ImagePath)
        ensures
            joined.parts() == self.parts() + tail.parts(),
    {
        let mut all = copy_components(&self.components, 0, self.components.len());
        let rest = copy_components(&tail.components, 0, tail.components.len());
        let ghost head = all.deep_view();
        let ghost head_raw = all@;
        let ghost rest_raw = rest@;
        let mut rest = rest;
        all.append(&mut rest);
        proof {
            assert(all@ == head_raw + rest_raw);
            assert(self.parts().subrange(0, self.parts().len() as int) =~= self.parts());
            assert(tail.parts().subrange(0, tail.parts().len() as int) =~= tail.parts());
            assert(all.deep_view() =~= self.parts() + tail.parts());
        }
        ImagePath { components: all }
    }
}

/// `parts` without its last element; nothing where there is none.
pub open spec fn without_last(parts: Seq<Seq<char>>) -> Seq<Seq<char>> {
    if parts.len() == 0 {
        parts
    } else {
        parts.drop_last()
    }
}

/// Copies the components from position `from` up to `to`.
fn copy_components(components: &Vec<String>, from: usize, to: usize) -> (out: Vec<String>)
    requires
        from <= to <= components@.len(),
    ensures
        out.deep_view() == components.deep_view().subrange(from as int, to as int),
{
    let mut out: Vec<String> = Vec::with_capacity(to - from);
    let mut i: usize = from;
    while i < to
        invariant
            from <= i <= to,
            to <= components@.len(),
            out@.len() == i - from,
            forall|j: int| 0 <= j < i - from ==> out@[j]@ == components@[from + j]@,
        decreases to - i,
    {
        out.push(components[i].clone());
        i += 1;
    }
    assert(out.deep_view() =~= components.deep_view().subrange(from as int, to as int));
    out
}

/// The position of the last `'.'` in `name`, or -1 where it has none.
pub open spec fn last_dot(name: Seq<char>) -> int
    decreases name.len(),
{
    if name.len() == 0 {
        -1
    } else if name.last() == '.' {
        name.len() - 1
    } else {
        last_dot(name.drop_last())
    }
}

/// `name` can be the last component of a file's path: it is not empty, is
/// neither `.` nor `..`, and holds no separator.
pub open spec fn is_file_name(name: Seq<char>) -> bool {
    &&& name.len() > 0
    &&& name != seq!['.']
    &&& name != seq!['.', '.']
    &&& !name.contains('/')
}

/// The stem of a file name: the name up to its last dot, or all of it where
/// it has no dot or only a leading one.
pub open spec fn stem_of(name: Seq<char>) -> Seq<char> {
    if last_dot(name) <= 0 {
        name
    } else {
        name.subrange(0, last_dot(name))
    }
}

/// The stem of the file that a path ends in, if it ends in one.
pub open spec fn file_stem_of(parts: Seq<Seq<char>>) -> Option<Seq<char>> {
    if parts.len() > 0 && is_file_name(parts.last()) {
        Some(stem_of(parts.last()))
    } else {
        None
    }
}

/// `last_dot` finds a dot, the last one, or reports that there is none.
pub proof fn lemma_last_dot(name: Seq<char>)
    ensures
        -1 <= last_dot(name) < name.len(),
        last_dot(name) >= 0 ==> name[last_dot(name)] == '.',
        forall|i: int| last_dot(name) < i < name.len() ==> name[i] != '.',
    decreases name.len(),
{
    if name.len() > 0 && name.last() != '.' {
        let rest = name.drop_last();
        lemma_last_dot(rest);
        assert forall|i: int| last_dot(name) < i < name.len() implies name[i] != '.' by {
            if i < rest.len() {
                assert(rest[i] == name[i]);
            }
        }
    }
}

/// Computes the stem of a file name.
pub fn file_stem(name: &str) -> (stem: Option<String>)
    ensures
        stem is Some <==> is_file_name(name@),
        stem matches Some(s) ==> s@ == stem_of(name@),
{
    let n: usize = name.unicode_len();
    if n == 0 {
        return None;
    }
    let mut dot: Option<usize> = None;
    let mut dots: usize = 0;
    let mut i: usize = 0;
    while i < n
        invariant
            i <= n,
            n == name@.len(),
            dots <= i,
            dots == i <==> forall|j: int| 0 <= j < i ==> name@[j] == '.',
            forall|j: int| 0 <= j < i ==> name@[j] != '/',
            match dot {
                Some(d) => d as int == last_dot(name@.take(i as int)),
                None => last_dot(name@.take(i as int)) == -1,
            },
        decreases n - i,
    {
        let c: char = name.get_char(i);
        assert(name@.take(i + 1).drop_last() =~= name@.take(i as int));
        assert(name@.take(i + 1).last() == c);
        if c == '/' {
            assert(name@.contains('/'));
            return None;
        }
        if c == '.' {
            dot = Some(i);
            if dots == i {
                dots += 1;
            }
        }
        i += 1;
    }
    assert(name@.take(n as int) =~= name@);
    assert(!name@.contains('/'));
    if dots == n && n <= 2 {
        assert(name@ =~= seq!['.'] || name@ =~= seq!['.', '.']);
        return None;
    }
    proof {
        if name@ == seq!['.'] || name@ == seq!['.', '.'] {
            assert(forall|j: int| 0 <= j < n ==> name@[j] == '.');
        }
        lemma_last_dot(name@);
    }
    match dot {
        Some(d) => {
            if d == 0 {
                Some(name.to_owned())
            } else {
                let s = name.substring_char(0, d);
                Some(s.to_owned())
            }
        },
        None => Some(name.to_owned()),
    }
}

} // verus!
