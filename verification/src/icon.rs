//! Icon resolution for a tracked application.
//!
//! Given the path of a running executable, the application bundle it sits
//! in is the deepest ancestor directory whose name ends in `.app`; inside
//! it, the icon file named by the bundle's metadata is read (by the host
//! application) and its widest variant is encoded for display. Reading the
//! metadata and the icon file is I/O and lives with the host; the path
//! arithmetic, the choice of the widest variant and the encoding live here.

use vstd::prelude::*;
use vstd::string::StrSliceExecFns;
use vstd::string::StringExecFns;

verus! {

/// Whether position `i` ends a path component: the end of the string, or
/// a separator.
pub open spec fn is_boundary(s: Seq<char>, i: int) -> bool {
    i == s.len() || s[i] == '/'
}

/// Where the path component that ends at position `i` starts: one past the
/// last separator before `i`, or the start of the string.
pub open spec fn comp_start(s: Seq<char>, i: int) -> int
    decreases i,
{
    if i <= 0 {
        0
    } else if s[i - 1] == '/' {
        i
    } else {
        comp_start(s, i - 1)
    }
}

/// The four characters a bundle directory name ends with.
pub open spec fn app_suffix() -> Seq<char> {
    seq!['.', 'a', 'p', 'p']
}

/// Whether the path prefix of length `i` is an application bundle: it ends
/// a component whose name is longer than the suffix and ends in `.app`
/// (so the name has a non-empty stem and, in path terms, the extension
/// `app`).
pub open spec fn is_app_boundary(s: Seq<char>, i: int) -> bool {
    &&& 0 <= i <= s.len()
    &&& is_boundary(s, i)
    &&& i - comp_start(s, i) > 4
    &&& s.subrange(i - 4, i) == app_suffix()
}

/// The length of the longest prefix that is an application bundle, looking
/// at prefixes of length `from` and shorter; -1 when there is none.
pub open spec fn deepest_app_boundary(s: Seq<char>, from: int) -> int
    decreases from + 1,
{
    if from < 0 {
        -1
    } else if is_app_boundary(s, from) {
        from
    } else {
        deepest_app_boundary(s, from - 1)
    }
}

pub proof fn lemma_comp_start_le(s: Seq<char>, i: int)
    requires
        0 <= i <= s.len(),
    ensures
        0 <= comp_start(s, i) <= i,
    decreases i,
{
    if i > 0 && s[i - 1] != '/' {
        lemma_comp_start_le(s, i - 1);
    }
}

pub proof fn lemma_comp_start_bound(s: Seq<char>, i: int, k: int)
    requires
        0 <= k <= i <= s.len(),
        forall|j: int| k <= j < i ==> s[j] != '/',
    ensures
        comp_start(s, i) <= k,
    decreases i - k,
{
    if i == k {
        lemma_comp_start_le(s, i);
    } else {
        lemma_comp_start_bound(s, i - 1, k);
    }
}

pub proof fn lemma_comp_start_ge(s: Seq<char>, i: int, k: int)
    requires
        0 < k <= i <= s.len(),
        s[k - 1] == '/',
    ensures
        comp_start(s, i) >= k,
    decreases i - k,
{
    if i == k {
    } else if s[i - 1] == '/' {
    } else {
        lemma_comp_start_ge(s, i - 1, k);
    }
}

proof fn lemma_deepest_found(s: Seq<char>, from: int, i: int)
    requires
        0 <= i <= from <= s.len(),
        is_app_boundary(s, i),
        forall|j: int| i < j <= from ==> !is_app_boundary(s, j),
    ensures
        deepest_app_boundary(s, from) == i,
    decreases from - i,
{
    if from > i {
        lemma_deepest_found(s, from - 1, i);
    }
}

proof fn lemma_deepest_none(s: Seq<char>, from: int)
    requires
        -1 <= from <= s.len(),
        forall|j: int| 0 <= j <= from ==> !is_app_boundary(s, j),
    ensures
        deepest_app_boundary(s, from) == -1,
    decreases from + 1,
{
    if from >= 0 {
        lemma_deepest_none(s, from - 1);
    }
}

/// The application bundle an executable path sits in: the longest path
/// prefix ending a component with a `.app` name, or nothing when no
/// ancestor is a bundle.
pub fn app_bundle_path(exe_path: &str) -> (r: Option<String>)
    ensures
        match r {
            Some(p) => deepest_app_boundary(exe_path@, exe_path@.len() as int) >= 0 && p@
                == exe_path@.subrange(
                0,
                deepest_app_boundary(exe_path@, exe_path@.len() as int),
            ),
            None => deepest_app_boundary(exe_path@, exe_path@.len() as int) == -1,
        },
{
    let len = exe_path.unicode_len();
    let mut i: usize = len;
    loop
        invariant
            0 <= i <= len,
            len == exe_path@.len(),
            forall|j: int| i < j <= len ==> !is_app_boundary(exe_path@, j),
        decreases i,
    {
        let ghost s = exe_path@;
        let mut ok = false;
        if i >= 5 && (i == len || exe_path.get_char(i) == '/') {
            let c1 = exe_path.get_char(i - 1);
            let c2 = exe_path.get_char(i - 2);
            let c3 = exe_path.get_char(i - 3);
            let c4 = exe_path.get_char(i - 4);
            let c5 = exe_path.get_char(i - 5);
            ok = c1 == 'p' && c2 == 'p' && c3 == 'a' && c4 == '.' && c5 != '/';
        }
        proof {
            let ii = i as int;
            if ok {
                assert forall|j: int| ii - 5 <= j < ii implies s[j] != '/' by {}
                lemma_comp_start_bound(s, ii, ii - 5);
                assert(s.subrange(ii - 4, ii) =~= app_suffix());
                assert(is_app_boundary(s, ii));
            } else {
                if 0 <= ii <= s.len() && is_boundary(s, ii) && ii >= 5 {
                    if s[ii - 1] == 'p' && s[ii - 2] == 'p' && s[ii - 3] == 'a' && s[ii - 4]
                        == '.' {
                        // every `.app` condition but the stem held, so the
                        // separator right before must have cut the component
                        assert(s[ii - 5] == '/');
                        lemma_comp_start_ge(s, ii, ii - 4);
                        assert(!is_app_boundary(s, ii));
                    } else {
                        if is_app_boundary(s, ii) {
                            assert(s.subrange(ii - 4, ii) == app_suffix());
                            assert(s[ii - 1] == 'p' && s[ii - 2] == 'p' && s[ii - 3] == 'a'
                                && s[ii - 4] == '.') by {
                                assert(s.subrange(ii - 4, ii)[3] == 'p');
                                assert(s.subrange(ii - 4, ii)[2] == 'p');
                                assert(s.subrange(ii - 4, ii)[1] == 'a');
                                assert(s.subrange(ii - 4, ii)[0] == '.');
                            }
                            assert(false);
                        }
                    }
                } else {
                    if is_app_boundary(s, ii) {
                        lemma_comp_start_le(s, ii);
                        assert(ii >= 5);
                        assert(false);
                    }
                }
                assert(!is_app_boundary(s, ii));
            }
        }
        if ok {
            let pre = exe_path.substring_char(0, i);
            proof {
                lemma_deepest_found(exe_path@, len as int, i as int);
            }
            return Some(pre.to_owned());
        }
        if i == 0 {
            proof {
                lemma_deepest_none(exe_path@, len as int);
            }
            return None;
        }
        i -= 1;
    }
}

/// Whether the file named by this path has an extension, in path terms:
/// its last component holds a `.` after its first character.
pub open spec fn has_extension(f: Seq<char>) -> bool {
    exists|k: int| comp_start(f, f.len() as int) < k < f.len() && f[k] == '.'
}

/// Whether `name` names a file with an extension.
pub fn file_has_extension(name: &str) -> (r: bool)
    ensures
        r == has_extension(name@),
{
    let len = name.unicode_len();
    let mut p: usize = 0;
    let mut k: usize = 0;
    while k < len
        invariant
            0 <= p <= k <= len,
            len == name@.len(),
            p == 0 || name@[p - 1] == '/',
            forall|j: int| p <= j < k ==> name@[j] != '/',
        decreases len - k,
    {
        if name.get_char(k) == '/' {
            p = k + 1;
        }
        k += 1;
    }
    proof {
        lemma_comp_start_le(name@, len as int);
        lemma_comp_start_bound(name@, len as int, p as int);
        if p > 0 {
            lemma_comp_start_ge(name@, len as int, p as int);
        }
        assert(comp_start(name@, len as int) == p as int);
    }
    let mut k2: usize = p;
    while k2 < len
        invariant
            p <= k2 <= len,
            len == name@.len(),
            comp_start(name@, len as int) == p as int,
            forall|j: int| p < j < k2 ==> name@[j] != '.',
        decreases len - k2,
    {
        if k2 > p && name.get_char(k2) == '.' {
            proof {
                assert(comp_start(name@, len as int) < k2 < name@.len() && name@[k2 as int]
                    == '.');
            }
            return true;
        }
        k2 += 1;
    }
    false
}

/// The path of the icon file inside an application bundle: it sits in the
/// bundle's resources directory, and a bare name (no extension) gets the
/// icon container extension appended, as the bundle metadata allows.
pub fn icon_path(bundle: &str, icon_file: &str) -> (r: String)
    ensures
        r@ == bundle@ + "/Contents/Resources/"@ + icon_file@ + (if has_extension(icon_file@) {
            Seq::<char>::empty()
        } else {
            ".icns"@
        }),
{
    let mut out: String = bundle.to_owned();
    out.append("/Contents/Resources/");
    out.append(icon_file);
    if !file_has_extension(icon_file) {
        out.append(".icns");
        proof {
            assert(out@ =~= bundle@ + "/Contents/Resources/"@ + icon_file@ + ".icns"@);
        }
    } else {
        proof {
            assert(out@ =~= bundle@ + "/Contents/Resources/"@ + icon_file@
                + Seq::<char>::empty());
        }
    }
    out
}

/// One icon variant read out of an icon container: its pixel width (zero
/// when the container gave none) and its raw image bytes.
pub struct IconCandidate {
    pub width: u32,
    pub data: Vec<u8>,
}

/// The variant a container's widest icon sits at: the last of the widest,
/// as picking a maximum by key does.
pub open spec fn best_idx(s: Seq<IconCandidate>) -> int
    decreases s.len(),
{
    if s.len() <= 1 {
        0
    } else {
        let b = best_idx(s.drop_last());
        if s.last().width >= s[b].width {
            s.len() - 1
        } else {
            b
        }
    }
}

/// The chosen variant is in range and is a maximum; among equals the last
/// wins.
pub proof fn lemma_best_idx_max(s: Seq<IconCandidate>)
    requires
        s.len() > 0,
    ensures
        0 <= best_idx(s) < s.len(),
        forall|j: int| 0 <= j < s.len() ==> (#[trigger] s[j]).width <= s[best_idx(s)].width,
        forall|j: int| best_idx(s) < j < s.len() ==> (#[trigger] s[j]).width < s[best_idx(s)].width,
    decreases s.len(),
{
    if s.len() > 1 {
        lemma_best_idx_max(s.drop_last());
        assert forall|j: int| 0 <= j < s.len() - 1 implies s.drop_last()[j] == s[j] by {}
    }
}

/// The index of the widest icon variant, or nothing for an empty list.
pub fn best_icon_index(icons: &Vec<IconCandidate>) -> (r: Option<usize>)
    ensures
        match r {
            Some(i) => icons@.len() > 0 && i as int == best_idx(icons@),
            None => icons@.len() == 0,
        },
{
    if icons.len() == 0 {
        return None;
    }
    let mut best: usize = 0;
    let mut j: usize = 1;
    while j < icons.len()
        invariant
            1 <= j <= icons@.len(),
            0 <= best < j,
            best as int == best_idx(icons@.take(j as int)),
        decreases icons@.len() - j,
    {
        proof {
            assert(icons@.take(j + 1).drop_last() =~= icons@.take(j as int));
            assert(icons@.take(j + 1).last() == icons@[j as int]);
        }
        if icons[j].width >= icons[best].width {
            best = j;
        }
        j += 1;
    }
    proof {
        assert(icons@.take(icons@.len() as int) =~= icons@);
    }
    Some(best)
}

/// The encoding of `b` in the standard base64 alphabet with padding.
pub uninterp spec fn base64_of(b: Seq<u8>) -> Seq<char>;

/// Whether a byte string of this length can be encoded at all: the encoded
/// form, four characters for every three bytes, must fit a machine length.
pub open spec fn encodable(n: int) -> bool {
    4 * ((n + 2) / 3) <= usize::MAX
}

/// Relies on base64's `Engine::encode` with the `STANDARD` engine (standard
/// alphabet, padded): the encoding is a pure function of the input bytes.
/// It panics when the encoded length overflows, which `encodable` rules out.
#[verifier::external_body]
fn encode_base64(b: &Vec<u8>) -> (r: String)
    requires
        encodable(b@.len() as int),
    ensures
        r@ == base64_of(b@),
{
    base64::Engine::encode(&base64::engine::general_purpose::STANDARD, b.as_slice())
}

/// The display encoding of the best icon variant: the widest is chosen and
/// encoded; an empty candidate list gives nothing (a missing icon is not an
/// error).
pub fn icon_base64(icons: &Vec<IconCandidate>) -> (r: Option<String>)
    requires
        forall|j: int| 0 <= j < icons@.len() ==> encodable(#[trigger] icons@[j].data@.len() as int),
    ensures
        match r {
            Some(e) => icons@.len() > 0 && e@ == base64_of(icons@[best_idx(icons@)].data@),
            None => icons@.len() == 0,
        },
{
    match best_icon_index(icons) {
        Some(i) => {
            proof {
                lemma_best_idx_max(icons@);
            }
            Some(encode_base64(&icons[i].data))
        },
        None => None,
    }
}

} // verus!
