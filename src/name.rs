//! Package names, and how one is derived from an archive's path.
use vstd::prelude::*;
use vstd::string::StrSliceExecFns;
use crate::ledger::is_line;
use crate::text::chars_of;

verus! {

/// The extension of a package archive.
pub open spec fn archive_suffix() -> Seq<char> {
    seq!['.', 't', 'a', 'r', '.', 'z', 's', 't']
}

/// The part of `path` after its last `/` (all of it where it has none).
pub open spec fn base_name(path: Seq<char>) -> Seq<char>
    decreases path.len(),
{
    if path.len() == 0 || path.last() == '/' {
        seq![]
    } else {
        base_name(path.drop_last()).push(path.last())
    }
}

/// Whether `s` ends with the archive extension.
pub open spec fn ends_with_suffix(s: Seq<char>) -> bool {
    s.len() >= 8 && s.subrange(s.len() - 8, s.len() as int) == archive_suffix()
}

/// `s` with the archive extension taken off its end for as long as it ends
/// with it.
pub open spec fn strip_suffixes(s: Seq<char>) -> Seq<char>
    decreases s.len(),
{
    if ends_with_suffix(s) {
        strip_suffixes(s.subrange(0, s.len() - 8))
    } else {
        s
    }
}

/// The name of the package that an archive at `path` holds.
pub open spec fn package_name_of(path: Seq<char>) -> Seq<char> {
    strip_suffixes(base_name(path))
}

/// A package name is not empty and fits on one ledger line.
pub open spec fn valid_name(name: Seq<char>) -> bool {
    name.len() > 0 && is_line(name)
}

fn ends_with_suffix_at(v: &Vec<char>, e: usize) -> (r: bool)
    requires
        8 <= e <= v.len(),
    ensures
        r == ends_with_suffix(v@.subrange(0, e as int)),
{
    let ghost s = v@.subrange(0, e as int);
    let ghost tail = s.subrange(s.len() - 8, s.len() as int);
    assert forall|k: int| 0 <= k < 8 implies tail[k] == v@[e - 8 + k] by {}
    let r = v[e - 8] == '.' && v[e - 7] == 't' && v[e - 6] == 'a' && v[e - 5] == 'r' && v[e
        - 4] == '.' && v[e - 3] == 'z' && v[e - 2] == 's' && v[e - 1] == 't';
    if r {
        assert(tail =~= archive_suffix());
    } else {
        assert(tail != archive_suffix()) by {
            if tail == archive_suffix() {
                assert(tail[0] == '.' && tail[1] == 't' && tail[2] == 'a' && tail[3] == 'r');
                assert(tail[4] == '.' && tail[5] == 'z' && tail[6] == 's' && tail[7] == 't');
            }
        }
    }
    r
}

/// The package name of an archive path: its base name, with the archive
/// extension stripped from the end as often as it stands there.
pub fn package_name(archive: &str) -> (r: String)
    ensures
        r@ == package_name_of(archive@),
{
    let v = chars_of(archive);
    let n = v.len();
    let mut k: usize = n;
    assert(v@.subrange(n as int, n as int) =~= Seq::<char>::empty());
    assert(v@.subrange(0, n as int) =~= v@);
    while k > 0 && v[k - 1] != '/'
        invariant
            v@ == archive@,
            n == v.len(),
            k <= n,
            base_name(archive@) == base_name(v@.subrange(0, k as int)) + v@.subrange(
                k as int,
                n as int,
            ),
        decreases k,
    {
        let ghost pre = v@.subrange(0, k as int);
        assert(pre.drop_last() =~= v@.subrange(0, k - 1));
        assert(base_name(pre) == base_name(pre.drop_last()).push(v@[k - 1]));
        assert(base_name(pre.drop_last()).push(v@[k - 1]) + v@.subrange(k as int, n as int)
            =~= base_name(pre.drop_last()) + v@.subrange(k - 1, n as int));
        k = k - 1;
    }
    assert(base_name(v@.subrange(0, k as int)) =~= Seq::<char>::empty());
    assert(base_name(archive@) =~= v@.subrange(k as int, n as int));
    let mut e: usize = n;
    while e - k >= 8 && ends_with_suffix_at(&v, e)
        invariant
            v@ == archive@,
            n == v.len(),
            k <= e <= n,
            package_name_of(archive@) == strip_suffixes(v@.subrange(k as int, e as int)),
        decreases e,
    {
        let ghost s = v@.subrange(k as int, e as int);
        assert(s.subrange(s.len() - 8, s.len() as int) =~= v@.subrange(0, e as int).subrange(
            e - 8,
            e as int,
        ));
        assert(s.subrange(0, s.len() - 8) =~= v@.subrange(k as int, e - 8));
        e = e - 8;
    }
    proof {
        let s = v@.subrange(k as int, e as int);
        if e - k >= 8 {
            assert(s.subrange(s.len() - 8, s.len() as int) =~= v@.subrange(0, e as int).subrange(
                e - 8,
                e as int,
            ));
        }
    }
    archive.substring_char(k, e).to_owned()
}

/// Whether `name` is a valid package name.
pub fn is_valid_name(name: &str) -> (r: bool)
    ensures
        r == valid_name(name@),
{
    let v = chars_of(name);
    let mut j: usize = 0;
    while j < v.len()
        invariant
            v@ == name@,
            j <= v.len(),
            forall|k: int| 0 <= k < j ==> v@[k] != '\n',
        decreases v.len() - j,
    {
        if v[j] == '\n' {
            return false;
        }
        j = j + 1;
    }
    v.len() > 0
}

} // verus!
