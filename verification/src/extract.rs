//! Sorting the files of an Oberon disk image for extraction into a source
//! tree: compiled artifacts (`.rsc` objects, `.smb` symbol files) are skipped
//! or kept as objects, a module source `X.Mod` whose object `X.rsc` is on the
//! image is a compile candidate, and every other file is pack-only data.
use vstd::prelude::*;

use crate::convert::chars_of;

verus! {

/// The extension `std::path::Path::extension` finds in `name`, as text.
pub uninterp spec fn path_ext(name: Seq<char>) -> Option<Seq<char>>;

/// A name that is one plain file-name component on every platform: not
/// empty, not `.` or `..`, and free of `/`, `\\` and `:`.
pub open spec fn plain_name(n: Seq<char>) -> bool {
    &&& n.len() > 0
    &&& n != seq!['.']
    &&& n != seq!['.', '.']
    &&& forall|i: int| 0 <= i < n.len() ==> n[i] != '/' && n[i] != '\\' && n[i] != ':'
}

/// The index of the last `.` among the first `k` chars of `n`, or -1.
pub open spec fn last_dot(n: Seq<char>, k: int) -> int
    decreases k,
{
    if k <= 0 {
        -1
    } else if n[k - 1] == '.' {
        k - 1
    } else {
        last_dot(n, k - 1)
    }
}

/// The extension std documents for a file name: the text after its final
/// `.`; none if it has no `.`, or if its only `.` is its first char.
pub open spec fn documented_ext(n: Seq<char>) -> Option<Seq<char>> {
    let d = last_dot(n, n.len() as int);
    if d <= 0 {
        None
    } else {
        Some(n.subrange(d + 1, n.len() as int))
    }
}

/// The extension of path `name`, if it has one that is text. Calls
/// `Path::extension`; the contract names its result, and for a plain file
/// name states what std documents: the text after the final `.`, none without
/// a `.` or when the only `.` leads the name.
#[verifier::external_body]
fn path_extension(name: &str) -> (r: Option<String>)
    ensures
        (match r {
            Some(e) => Some(e@),
            None => None::<Seq<char>>,
        }) == path_ext(name@),
        plain_name(name@) ==> (match r {
            Some(e) => Some(e@),
            None => None::<Seq<char>>,
        }) == documented_ext(name@),
{
    std::path::Path::new(name).extension().and_then(|e| e.to_str()).map(|e| e.to_string())
}

/// The extension `rsc`.
pub open spec fn rsc() -> Seq<char> {
    seq!['r', 's', 'c']
}

/// The extension `smb`.
pub open spec fn smb() -> Seq<char> {
    seq!['s', 'm', 'b']
}

/// Whether an extension marks a compiled artifact.
pub open spec fn compiled_ext(ext: Option<Seq<char>>) -> bool {
    ext == Some(rsc()) || ext == Some(smb())
}

/// Whether extension `ext` marks a compiled artifact (`rsc` or `smb`).
pub fn is_compiled_ext(ext: Option<&str>) -> (b: bool)
    ensures
        b == compiled_ext(match ext {
            Some(e) => Some(e@),
            None => None,
        }),
{
    match ext {
        None => false,
        Some(e) => {
            let cs = chars_of(e);
            let r = cs.len() == 3 && cs[0] == 'r' && cs[1] == 's' && cs[2] == 'c';
            let s = cs.len() == 3 && cs[0] == 's' && cs[1] == 'm' && cs[2] == 'b';
            assert(r ==> cs@ =~= rsc());
            assert(s ==> cs@ =~= smb());
            assert(cs@ =~= rsc() ==> r);
            assert(cs@ =~= smb() ==> s);
            r || s
        },
    }
}

/// Whether file `name` is a compiled artifact that a build regenerates from
/// source (extension `rsc` or `smb`).
pub fn is_compiled(name: &str) -> (b: bool)
    ensures
        b == compiled_ext(path_ext(name@)),
        plain_name(name@) ==> b == compiled_ext(documented_ext(name@)),
{
    match path_extension(name) {
        None => is_compiled_ext(None),
        Some(e) => is_compiled_ext(Some(e.as_str())),
    }
}

/// `s` without suffix `suf`, if it ends with it.
pub open spec fn strip_suffix(s: Seq<char>, suf: Seq<char>) -> Option<Seq<char>> {
    if s.len() >= suf.len() && s.subrange(s.len() - suf.len(), s.len() as int) == suf {
        Some(s.subrange(0, s.len() - suf.len()))
    } else {
        None
    }
}

/// `.rsc`.
pub open spec fn dot_rsc() -> Seq<char> {
    seq!['.', 'r', 's', 'c']
}

/// `.Mod`.
pub open spec fn dot_mod() -> Seq<char> {
    seq!['.', 'M', 'o', 'd']
}

/// What becomes of a file of the image.
#[derive(Debug, Clone, Copy, PartialEq, Eq, Structural)]
pub enum Disposition {
    /// A compiled artifact, left out.
    Skip,
    /// A compiled artifact, kept (as toolchain seed material).
    Object,
    /// A module source with its object on the image: a compile candidate.
    Source,
    /// Anything else: packed verbatim.
    PackOnly,
}

/// Whether some name of `names` is `stem` followed by `.rsc`.
pub open spec fn has_object(names: Seq<Seq<char>>, stem: Seq<char>) -> bool {
    exists|j: int| 0 <= j < names.len() && strip_suffix(names[j], dot_rsc()) == Some(stem)
}

/// What becomes of file `name` among the image's `names`.
pub open spec fn disposition_spec(names: Seq<Seq<char>>, name: Seq<char>, keep_objects: bool) -> Disposition {
    if compiled_ext(path_ext(name)) {
        if keep_objects { Disposition::Object } else { Disposition::Skip }
    } else {
        match strip_suffix(name, dot_mod()) {
            Some(stem) => if has_object(names, stem) { Disposition::Source } else { Disposition::PackOnly },
            None => Disposition::PackOnly,
        }
    }
}

/// `cs` without suffix `suf`, if it ends with it.
fn strip(cs: &Vec<char>, suf: &[char; 4]) -> (r: Option<Vec<char>>)
    ensures
        match r {
            Some(v) => strip_suffix(cs@, suf@) == Some(v@),
            None => strip_suffix(cs@, suf@) is None,
        },
{
    let n = cs.len();
    if n < 4 {
        return None;
    }
    let mut k: usize = 0;
    while k < 4
        invariant
            4 <= n == cs@.len(),
            k <= 4,
            forall|j: int| 0 <= j < k ==> cs@[n - 4 + j] == suf@[j],
        decreases 4 - k,
    {
        if cs[n - 4 + k] != suf[k] {
            assert(cs@.subrange(n - 4, n as int)[k as int] != suf@[k as int]);
            return None;
        }
        k = k + 1;
    }
    assert(cs@.subrange(n - 4, n as int) =~= suf@);
    let mut v: Vec<char> = Vec::new();
    let mut i: usize = 0;
    while i < n - 4
        invariant
            4 <= n == cs@.len(),
            i <= n - 4,
            v@ =~= cs@.subrange(0, i as int),
        decreases n - 4 - i,
    {
        v.push(cs[i]);
        i = i + 1;
    }
    Some(v)
}

/// Whether two char sequences are equal.
fn same(a: &Vec<char>, b: &Vec<char>) -> (r: bool)
    ensures
        r == (a@ == b@),
{
    if a.len() != b.len() {
        return false;
    }
    let mut i: usize = 0;
    while i < a.len()
        invariant
            a@.len() == b@.len(),
            i <= a@.len(),
            forall|j: int| 0 <= j < i ==> a@[j] == b@[j],
        decreases a@.len() - i,
    {
        if a[i] != b[i] {
            return false;
        }
        i = i + 1;
    }
    assert(a@ =~= b@);
    true
}

/// What becomes of each of the image's files (see [`disposition_spec`]).
pub fn dispositions(names: &[String], keep_objects: bool) -> (d: Vec<Disposition>)
    ensures
        d@.len() == names@.len(),
        forall|i: int|
            0 <= i < names@.len() ==> d@[i] == disposition_spec(
                names@.map_values(|s: String| s@),
                names@[i]@,
                keep_objects,
            ),
{
    let ghost all = names@.map_values(|s: String| s@);
    let dot_rsc_a: [char; 4] = ['.', 'r', 's', 'c'];
    let dot_mod_a: [char; 4] = ['.', 'M', 'o', 'd'];
    assert(dot_rsc_a@ =~= dot_rsc() && dot_mod_a@ =~= dot_mod());
    let mut stems: Vec<Vec<char>> = Vec::new();
    let mut owners: Ghost<Seq<int>> = Ghost(Seq::empty());
    let mut i: usize = 0;
    while i < names.len()
        invariant
            i <= names@.len(),
            all == names@.map_values(|s: String| s@),
            dot_rsc_a@ == dot_rsc(),
            stems@.len() == owners@.len(),
            forall|k: int|
                0 <= k < stems@.len() ==> 0 <= #[trigger] owners@[k] < i && strip_suffix(
                    all[owners@[k]],
                    dot_rsc(),
                ) == Some(stems@[k]@),
            forall|j: int|
                0 <= j < i && #[trigger] strip_suffix(all[j], dot_rsc()) is Some ==> exists|k: int|
                    0 <= k < stems@.len() && owners@[k] == j,
        decreases names@.len() - i,
    {
        let ghost old_owners = owners@;
        let ghost old_len = stems@.len();
        let cs = chars_of(names[i].as_str());
        assert(cs@ == all[i as int]);
        match strip(&cs, &dot_rsc_a) {
            Some(stem) => {
                proof {
                    owners@ = owners@.push(i as int);
                    assert(owners@[stems@.len() as int] == i);
                }
                stems.push(stem);
            },
            None => {},
        }
        proof {
            assert forall|j: int|
                0 <= j < i + 1 && #[trigger] strip_suffix(all[j], dot_rsc()) is Some implies exists|k: int|
                    0 <= k < stems@.len() && owners@[k] == j by {
                if j < i {
                    let k = choose|k: int| 0 <= k < old_len && old_owners[k] == j;
                    assert(owners@[k] == j);
                } else {
                    assert(owners@[old_len as int] == j);
                }
            }
        }
        i = i + 1;
    }
    let mut out: Vec<Disposition> = Vec::new();
    let mut i: usize = 0;
    while i < names.len()
        invariant
            i <= names@.len(),
            all == names@.map_values(|s: String| s@),
            dot_mod_a@ == dot_mod(),
            stems@.len() == owners@.len(),
            forall|k: int|
                0 <= k < stems@.len() ==> 0 <= #[trigger] owners@[k] < names@.len() && strip_suffix(
                    all[owners@[k]],
                    dot_rsc(),
                ) == Some(stems@[k]@),
            forall|j: int|
                0 <= j < names@.len() && #[trigger] strip_suffix(all[j], dot_rsc()) is Some ==> exists|k: int|
                    0 <= k < stems@.len() && owners@[k] == j,
            out@.len() == i,
            forall|j: int| 0 <= j < i ==> out@[j] == disposition_spec(all, all[j], keep_objects),
        decreases names@.len() - i,
    {
        let name = &names[i];
        let d = if is_compiled(name.as_str()) {
            if keep_objects { Disposition::Object } else { Disposition::Skip }
        } else {
            let cs = chars_of(name.as_str());
            match strip(&cs, &dot_mod_a) {
                None => Disposition::PackOnly,
                Some(stem) => {
                    let mut found = false;
                    let mut k: usize = 0;
                    while k < stems.len()
                        invariant
                            k <= stems@.len(),
                            !found ==> forall|m: int| 0 <= m < k ==> stems@[m]@ != stem@,
                            found ==> exists|m: int| 0 <= m < stems@.len() && stems@[m]@ == stem@,
                        decreases stems@.len() - k,
                    {
                        if same(&stems[k], &stem) {
                            found = true;
                        }
                        k = k + 1;
                    }
                    proof {
                        if found {
                            let m = choose|m: int| 0 <= m < stems@.len() && stems@[m]@ == stem@;
                            let j = owners@[m];
                            assert(strip_suffix(all[j], dot_rsc()) == Some(stem@));
                        } else {
                            assert forall|j: int|
                                0 <= j < all.len() implies strip_suffix(all[j], dot_rsc()) != Some(stem@) by {
                                if strip_suffix(all[j], dot_rsc()) == Some(stem@) {
                                    let m = choose|m: int| 0 <= m < stems@.len() && owners@[m] == j;
                                    assert(stems@[m]@ == stem@);
                                }
                            }
                        }
                    }
                    if found { Disposition::Source } else { Disposition::PackOnly }
                },
            }
        };
        assert(name@ == all[i as int]);
        out.push(d);
        i = i + 1;
    }
    out
}

} // verus!
