use vstd::prelude::*;

verus! {

/// The characters of each component of a path.
pub open spec fn parts_of(v: Seq<String>) -> Seq<Seq<char>> {
    v.map_values(|s: String| s@)
}

/// Whether the components of `root` begin the components of `path`.
pub open spec fn starts_with(path: Seq<Seq<char>>, root: Seq<Seq<char>>) -> bool {
    root.len() <= path.len() && path.take(root.len() as int) == root
}

/// `path` with the components of `root` taken off its front; where `root`
/// does not begin `path`, the path stays whole.
pub open spec fn relative_spec(path: Seq<Seq<char>>, root: Seq<Seq<char>>) -> Seq<Seq<char>> {
    if starts_with(path, root) {
        path.skip(root.len() as int)
    } else {
        path
    }
}

/// Components written one after another with a `/` between each two.
pub open spec fn join_spec(parts: Seq<Seq<char>>) -> Seq<char>
    decreases parts.len(),
{
    if parts.len() == 0 {
        seq![]
    } else if parts.len() == 1 {
        parts[0]
    } else {
        join_spec(parts.drop_last()) + seq!['/'] + parts.last()
    }
}

/// Whether the components of `root` begin the components of `path`.
fn has_prefix(path: &Vec<String>, root: &Vec<String>) -> (r: bool)
    ensures
        r == starts_with(parts_of(path@), parts_of(root@)),
{
    if root.len() > path.len() {
        return false;
    }
    let mut k: usize = 0;
    while k < root.len()
        invariant
            root.len() <= path.len(),
            k <= root.len(),
            forall|j: int| 0 <= j < k ==> path@[j]@ == root@[j]@,
        decreases root.len() - k,
    {
        if path[k] != root[k] {
            assert(parts_of(path@).take(root.len() as int)[k as int] != parts_of(root@)[k as int]);
            return false;
        }
        k = k + 1;
    }
    assert(parts_of(path@).take(root.len() as int) =~= parts_of(root@));
    true
}

/// The components of `path` below `root`; where `path` does not lie under
/// `root`, all of its components.
pub fn relative_path(path: &Vec<String>, root: &Vec<String>) -> (r: Vec<String>)
    ensures
        parts_of(r@) == relative_spec(parts_of(path@), parts_of(root@)),
{
    let start: usize = if has_prefix(path, root) {
        root.len()
    } else {
        0
    };
    let mut r: Vec<String> = Vec::new();
    let mut k: usize = start;
    while k < path.len()
        invariant
            start <= k <= path.len(),
            r@.len() == k - start,
            forall|j: int| 0 <= j < r@.len() ==> r@[j]@ == path@[start + j]@,
        decreases path.len() - k,
    {
        let c = path[k].clone();
        r.push(c);
        k = k + 1;
    }
    assert(parts_of(r@) =~= parts_of(path@).subrange(start as int, path.len() as int));
    assert(parts_of(path@).skip(start as int) =~= parts_of(path@).subrange(
        start as int,
        path.len() as int,
    ));
    assert(parts_of(path@).skip(0) =~= parts_of(path@));
    r
}

/// The components joined by `/`, appended to `out`.
pub(crate) fn push_joined(out: &mut String, parts: &Vec<String>)
    ensures
        final(out)@ == old(out)@ + join_spec(parts_of(parts@)),
{
    let ghost start = out@;
    let mut k: usize = 0;
    while k < parts.len()
        invariant
            k <= parts.len(),
            out@ == start + join_spec(parts_of(parts@).take(k as int)),
        decreases parts.len() - k,
    {
        let ghost done = parts_of(parts@).take(k as int);
        let ghost next = parts_of(parts@).take(k + 1);
        assert(next.drop_last() =~= done);
        if k > 0 {
            crate::text::push_char(out, '/');
        }
        out.append(parts[k].as_str());
        assert(out@ =~= start + join_spec(next));
        k = k + 1;
    }
    assert(parts_of(parts@).take(parts.len() as int) =~= parts_of(parts@));
}

/// The components joined by `/`.
pub fn display_path(parts: &Vec<String>) -> (r: String)
    ensures
        r@ == join_spec(parts_of(parts@)),
{
    let mut r = String::new();
    push_joined(&mut r, parts);
    assert(r@ =~= join_spec(parts_of(parts@)));
    r
}

} // verus!
