//! The selector: a pure predicate deciding whether a candidate file name is
//! of interest, here "has extension `ext`". Both producers (the one-shot
//! enumeration and the live watch) filter through the same selector, so the
//! two halves of the unified sequence agree on what counts as a match.

use vstd::prelude::*;

verus! {

/// `.` as a byte.
pub const DOT: u8 = 46;

/// `/` as a byte.
pub const SLASH: u8 = 47;

/// A name matches extension `ext` when it ends in `.` followed by `ext`,
/// with at least one byte before that dot. Since a well-formed extension
/// holds no dot, the dot written here is the last one in the name, so this
/// agrees with the usual "portion after the last dot, if the stem before it
/// is non-empty" reading of a file extension.
pub open spec fn name_matches(ext: Seq<u8>, name: Seq<u8>) -> bool {
    &&& name.len() > ext.len() + 1
    &&& name[name.len() - ext.len() - 1] == DOT
    &&& forall|i: int| 0 <= i < ext.len() ==> name[name.len() - ext.len() + i] == ext[i]
}

/// A well-formed extension: non-empty, and free of `.` and `/`.
pub open spec fn ext_wf(ext: Seq<u8>) -> bool {
    &&& ext.len() > 0
    &&& forall|i: int| 0 <= i < ext.len() ==> ext[i] != DOT && ext[i] != SLASH
}

/// The directory path joined with a name from inside it: a separator is
/// added unless the directory already ends with one.
pub open spec fn join_path(dir: Seq<u8>, name: Seq<u8>) -> Seq<u8> {
    if dir.len() > 0 && dir[dir.len() - 1] == SLASH {
        dir + name
    } else {
        dir + seq![SLASH] + name
    }
}

/// Stateless predicate over candidate names, shared by both producers.
pub struct Selector {
    ext: Vec<u8>,
}

impl View for Selector {
    type V = Seq<u8>;

    closed spec fn view(&self) -> Seq<u8> {
        self.ext@
    }
}

impl Selector {
    /// Builds a selector for `ext`; refused when `ext` is empty or holds a
    /// dot or a path separator, since no file name has such an extension.
    pub fn new(ext: Vec<u8>) -> (r: Option<Selector>)
        ensures
            r is Some <==> ext_wf(ext@),
            r matches Some(s) ==> s@ == ext@,
    {
        if ext.len() == 0 {
            return None;
        }
        let mut i: usize = 0;
        while i < ext.len()
            invariant
                0 <= i <= ext.len(),
                forall|j: int| 0 <= j < i ==> ext@[j] != DOT && ext@[j] != SLASH,
            decreases ext.len() - i,
        {
            if ext[i] == DOT || ext[i] == SLASH {
                return None;
            }
            i = i + 1;
        }
        Some(Selector { ext })
    }

    /// Decides whether `name` matches this selector's extension.
    pub fn matches(&self, name: &Vec<u8>) -> (r: bool)
        ensures
            r == name_matches(self@, name@),
    {
        let n = name.len();
        let e = self.ext.len();
        if n <= 1 || e >= n - 1 {
            return false;
        }
        let dot_idx = n - 1 - e;
        if name[dot_idx] != DOT {
            return false;
        }
        let mut i: usize = 0;
        while i < e
            invariant
                0 <= i <= e,
                e == self.ext@.len(),
                n == name@.len(),
                n > e + 1,
                dot_idx == n - 1 - e,
                forall|j: int| 0 <= j < i ==> name@[n - e + j] == self.ext@[j],
            decreases e - i,
        {
            if name[dot_idx + 1 + i] != self.ext[i] {
                return false;
            }
            i = i + 1;
        }
        true
    }
}

/// Joins the watched directory with a name from inside it.
pub fn join(dir: &Vec<u8>, name: &Vec<u8>) -> (r: Vec<u8>)
    ensures
        r@ == join_path(dir@, name@),
{
    let mut out: Vec<u8> = Vec::new();
    let mut i: usize = 0;
    while i < dir.len()
        invariant
            0 <= i <= dir.len(),
            out@ == dir@.take(i as int),
        decreases dir.len() - i,
    {
        out.push(dir[i]);
        i = i + 1;
    }
    assert(out@ == dir@);
    if !(dir.len() > 0 && dir[dir.len() - 1] == SLASH) {
        out.push(SLASH);
        assert(out@ == dir@ + seq![SLASH]);
    }
    let mut j: usize = 0;
    let ghost base = out@;
    while j < name.len()
        invariant
            0 <= j <= name.len(),
            out@ == base + name@.take(j as int),
        decreases name.len() - j,
    {
        out.push(name[j]);
        j = j + 1;
    }
    assert(name@.take(name@.len() as int) == name@);
    assert(dir@ + name@.take(0) == dir@);
    assert((dir@ + seq![SLASH]) + name@.take(0) == dir@ + seq![SLASH]);
    out
}

/// Fixing the directory, distinct names join to distinct paths: the joined
/// path determines the name.
pub proof fn lemma_join_path_injective(dir: Seq<u8>, n1: Seq<u8>, n2: Seq<u8>)
    requires
        join_path(dir, n1) == join_path(dir, n2),
    ensures
        n1 == n2,
{
    if dir.len() > 0 && dir[dir.len() - 1] == SLASH {
        assert((dir + n1).len() == (dir + n2).len());
        assert(n1.len() == n2.len());
        assert forall|i: int| 0 <= i < n1.len() implies n1[i] == n2[i] by {
            assert((dir + n1)[dir.len() + i] == n1[i]);
            assert((dir + n2)[dir.len() + i] == n2[i]);
        }
        assert(n1 =~= n2);
    } else {
        let p = dir + seq![SLASH];
        assert((p + n1).len() == (p + n2).len());
        assert(n1.len() == n2.len());
        assert forall|i: int| 0 <= i < n1.len() implies n1[i] == n2[i] by {
            assert((p + n1)[p.len() + i] == n1[i]);
            assert((p + n2)[p.len() + i] == n2[i]);
        }
        assert(n1 =~= n2);
    }
}

} // verus!
