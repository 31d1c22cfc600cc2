//! Character-level model of case folding and substring occurrence, with
//! verified executable helpers for scanning names.
use vstd::prelude::*;
use vstd::string::StrSliceExecFns;

verus! {

/// Code point of `c` after ASCII case folding: uppercase ASCII letters map to
/// their lowercase counterparts when `ci` is set; every other character is
/// left as it is.
pub open spec fn fold_code(c: char, ci: bool) -> int {
    if ci && 65 <= c as u32 && c as u32 <= 90 {
        c as u32 + 32
    } else {
        c as u32 as int
    }
}

/// Two characters are equal up to ASCII case folding (exactly equal when `ci`
/// is false).
pub open spec fn chars_equal(a: char, b: char, ci: bool) -> bool {
    fold_code(a, ci) == fold_code(b, ci)
}

/// `pat` occurs in `text` as a contiguous substring starting at character
/// position `i`, comparing characters up to case folding when `ci` is set.
pub open spec fn occurs_at(pat: Seq<char>, text: Seq<char>, i: int, ci: bool) -> bool {
    &&& 0 <= i
    &&& i + pat.len() <= text.len()
    &&& forall|j: int| 0 <= j < pat.len() ==> chars_equal(pat[j], text[i + j], ci)
}

/// `pat` occurs somewhere in `text` as a contiguous substring.
pub open spec fn contains_pattern(pat: Seq<char>, text: Seq<char>, ci: bool) -> bool {
    exists|i: int| occurs_at(pat, text, i, ci)
}

/// At least one pattern of `pats` occurs in `text` as a contiguous substring.
pub open spec fn any_pattern_contained(pats: Seq<Seq<char>>, text: Seq<char>, ci: bool) -> bool {
    exists|k: int| 0 <= k < pats.len() && contains_pattern(pats[k], text, ci)
}

/// A pair of pattern sets is rejected at construction: the include set is
/// empty, or some pattern of either set is the empty string.
pub open spec fn sets_invalid(incs: Seq<Seq<char>>, excs: Seq<Seq<char>>) -> bool {
    ||| incs.len() == 0
    ||| exists|k: int| 0 <= k < incs.len() && incs[k].len() == 0
    ||| exists|k: int| 0 <= k < excs.len() && excs[k].len() == 0
}

fn fold_exec(c: char, ci: bool) -> (r: u32)
    ensures
        r == fold_code(c, ci),
{
    let u: u32 = c as u32;
    if ci && 65 <= u && u <= 90 {
        u + 32
    } else {
        u
    }
}

/// Compare two characters up to ASCII case folding.
pub fn chars_equal_exec(a: char, b: char, ci: bool) -> (r: bool)
    ensures
        r == chars_equal(a, b, ci),
{
    fold_exec(a, ci) == fold_exec(b, ci)
}

/// Do the strings hold the same characters?
pub fn str_eq(a: &str, b: &str) -> (r: bool)
    ensures
        r == (a@ == b@),
{
    let la: usize = a.unicode_len();
    let lb: usize = b.unicode_len();
    if la != lb {
        return false;
    }
    let mut i: usize = 0;
    while i < la
        invariant
            la == a@.len(),
            la == b@.len(),
            i <= la,
            forall|q: int| 0 <= q < i ==> a@[q] == b@[q],
        decreases la - i,
    {
        if a.get_char(i) != b.get_char(i) {
            return false;
        }
        i += 1;
    }
    proof {
        assert(a@ =~= b@);
    }
    true
}

/// Does `pat` occur in `text` at character position `i`?
fn occurs_at_exec(pat: &str, text: &str, i: usize, ci: bool) -> (r: bool)
    requires
        i + pat@.len() <= text@.len(),
        text@.len() <= usize::MAX,
    ensures
        r == occurs_at(pat@, text@, i as int, ci),
{
    let plen: usize = pat.unicode_len();
    let mut j: usize = 0;
    while j < plen
        invariant
            plen == pat@.len(),
            i + plen <= text@.len(),
            text@.len() <= usize::MAX,
            j <= plen,
            forall|q: int| 0 <= q < j ==> chars_equal(pat@[q], text@[i + q], ci),
        decreases plen - j,
    {
        if !chars_equal_exec(pat.get_char(j), text.get_char(i + j), ci) {
            return false;
        }
        j += 1;
    }
    true
}

/// Position `i`, pattern index `k` name the first occurrence of any pattern
/// of `pats` in `text`: no pattern occurs at an earlier position, and no
/// earlier pattern occurs at the same position.
pub open spec fn first_occurrence_at(
    pats: Seq<Seq<char>>,
    text: Seq<char>,
    ci: bool,
    i: int,
    k: int,
) -> bool {
    &&& 0 <= k < pats.len()
    &&& occurs_at(pats[k], text, i, ci)
    &&& forall|j: int, q: int| 0 <= j < i && 0 <= q < pats.len() ==> !occurs_at(pats[q], text, j, ci)
    &&& forall|q: int| 0 <= q < k ==> !occurs_at(pats[q], text, i, ci)
}

/// The first occurrence is unique: a contract that names a first occurrence
/// by existence pins it completely.
pub proof fn lemma_first_occurrence_unique(
    pats: Seq<Seq<char>>,
    text: Seq<char>,
    ci: bool,
    i1: int,
    k1: int,
    i2: int,
    k2: int,
)
    requires
        first_occurrence_at(pats, text, ci, i1, k1),
        first_occurrence_at(pats, text, ci, i2, k2),
    ensures
        i1 == i2,
        k1 == k2,
{
    if i1 < i2 {
        assert(!occurs_at(pats[k1], text, i1, ci));
    }
    if i2 < i1 {
        assert(!occurs_at(pats[k2], text, i2, ci));
    }
    if k1 < k2 {
        assert(!occurs_at(pats[k1], text, i1, ci));
    }
    if k2 < k1 {
        assert(!occurs_at(pats[k2], text, i2, ci));
    }
}

/// `r` names the first occurrence of any pattern of `pats` in `text`, or says
/// that no pattern occurs at all.
pub open spec fn first_occurrence_ok(
    pats: Seq<Seq<char>>,
    text: Seq<char>,
    ci: bool,
    r: Option<(usize, usize)>,
) -> bool {
    match r {
        Some(ik) => first_occurrence_at(pats, text, ci, ik.0 as int, ik.1 as int),
        None => !any_pattern_contained(pats, text, ci),
    }
}

/// Find the first occurrence of any pattern of `pats` in `text`: the least
/// character position at which some pattern occurs and, at that position, the
/// least pattern index.
pub fn find_first_occurrence(pats: &Vec<String>, text: &str, ci: bool) -> (r: Option<
    (usize, usize),
>)
    requires
        forall|k: int| 0 <= k < pats@.len() ==> pats@[k]@.len() > 0,
    ensures
        first_occurrence_ok(pats.deep_view(), text@, ci, r),
{
    let tlen: usize = text.unicode_len();
    let npats: usize = pats.len();
    proof {
        assert(pats.deep_view().len() == pats@.len());
        assert(forall|k: int|
            0 <= k < pats@.len() ==> pats.deep_view()[k] == pats@[k]@);
    }
    let mut i: usize = 0;
    while i < tlen
        invariant
            tlen == text@.len(),
            npats == pats@.len(),
            pats.deep_view().len() == pats@.len(),
            forall|k: int| 0 <= k < pats@.len() ==> pats.deep_view()[k] == pats@[k]@,
            forall|k: int| 0 <= k < pats@.len() ==> pats@[k]@.len() > 0,
            i <= tlen,
            forall|j: int, k: int|
                0 <= j < i && 0 <= k < pats.deep_view().len() ==> !occurs_at(
                    pats.deep_view()[k],
                    text@,
                    j,
                    ci,
                ),
        decreases tlen - i,
    {
        let mut k: usize = 0;
        while k < npats
            invariant
                tlen == text@.len(),
                npats == pats@.len(),
                pats.deep_view().len() == pats@.len(),
                forall|q: int| 0 <= q < pats@.len() ==> pats.deep_view()[q] == pats@[q]@,
                forall|q: int| 0 <= q < pats@.len() ==> pats@[q]@.len() > 0,
                i < tlen,
                k <= npats,
                forall|j: int, q: int|
                    0 <= j < i && 0 <= q < pats.deep_view().len() ==> !occurs_at(
                        pats.deep_view()[q],
                        text@,
                        j,
                        ci,
                    ),
                forall|q: int| 0 <= q < k ==> !occurs_at(pats.deep_view()[q], text@, i as int, ci),
            decreases npats - k,
        {
            let pat: &String = &pats[k];
            let plen: usize = pat.as_str().unicode_len();
            if plen <= tlen - i {
                if occurs_at_exec(pat.as_str(), text, i, ci) {
                    return Some((i, k));
                }
            } else {
                proof {
                    assert(!occurs_at(pats.deep_view()[k as int], text@, i as int, ci));
                }
            }
            k += 1;
        }
        i += 1;
    }
    proof {
        assert forall|k: int|
            0 <= k < pats.deep_view().len() implies !contains_pattern(
            pats.deep_view()[k],
            text@,
            ci,
        ) by {
            if contains_pattern(pats.deep_view()[k], text@, ci) {
                let j = choose|j: int| occurs_at(pats.deep_view()[k], text@, j, ci);
                assert(pats.deep_view()[k].len() > 0);
                assert(0 <= j < tlen);
                assert(!occurs_at(pats.deep_view()[k], text@, j, ci));
            }
        }
    }
    None
}

/// `p` is the position of the last dot of `name`, a dot that is not its first
/// character: the convention under which a leading dot marks a hidden name
/// rather than an empty stem with an extension.
pub open spec fn last_dot_at(name: Seq<char>, p: int) -> bool {
    &&& 0 < p < name.len()
    &&& name[p] == '.'
    &&& forall|q: int| p < q < name.len() ==> name[q] != '.'
}

/// The extension of `name`: the characters after its last dot, provided that
/// dot is not the first character; `None` otherwise.
pub open spec fn spec_extension(name: Seq<char>) -> Option<Seq<char>> {
    if exists|p: int| last_dot_at(name, p) {
        let p = choose|p: int| last_dot_at(name, p);
        Some(name.subrange(p + 1, name.len() as int))
    } else {
        None
    }
}

/// At most one position is the last dot.
proof fn lemma_last_dot_unique(name: Seq<char>, p1: int, p2: int)
    requires
        last_dot_at(name, p1),
        last_dot_at(name, p2),
    ensures
        p1 == p2,
{
    if p1 < p2 {
        assert(name[p2] != '.');
    }
    if p2 < p1 {
        assert(name[p1] != '.');
    }
}

/// Position of the last dot of `name` that is not its first character.
fn last_dot_index(name: &str) -> (r: Option<usize>)
    ensures
        match r {
            Some(p) => last_dot_at(name@, p as int),
            None => forall|p: int| !last_dot_at(name@, p),
        },
{
    let len: usize = name.unicode_len();
    let mut best: Option<usize> = None;
    let mut i: usize = 0;
    while i < len
        invariant
            len == name@.len(),
            i <= len,
            match best {
                Some(p) => {
                    &&& 0 < p < i
                    &&& name@[p as int] == '.'
                    &&& forall|q: int| p < q < i ==> name@[q] != '.'
                },
                None => forall|q: int| 0 < q < i ==> name@[q] != '.',
            },
        decreases len - i,
    {
        if i > 0 && name.get_char(i) == '.' {
            best = Some(i);
        }
        i += 1;
    }
    best
}

/// `name` has an extension that stands, character for character, in `exts`.
pub open spec fn spec_extension_matches(name: Seq<char>, exts: Seq<Seq<char>>) -> bool {
    match spec_extension(name) {
        Some(e) => exists|k: int| 0 <= k < exts.len() && exts[k] == e,
        None => false,
    }
}

/// Does the extension of `name` exactly match one of `exts` (case-sensitive,
/// no leading dot)?
pub fn extension_matches(name: &str, exts: &Vec<String>) -> (r: bool)
    ensures
        r == spec_extension_matches(name@, exts.deep_view()),
{
    proof {
        assert(exts.deep_view().len() == exts@.len());
        assert(forall|k: int| 0 <= k < exts@.len() ==> exts.deep_view()[k] == exts@[k]@);
    }
    let len: usize = name.unicode_len();
    match last_dot_index(name) {
        None => false,
        Some(p) => {
            proof {
                let pw = choose|q: int| last_dot_at(name@, q);
                lemma_last_dot_unique(name@, pw, p as int);
            }
            let ext: &str = name.substring_char(p + 1, len);
            let mut k: usize = 0;
            let n: usize = exts.len();
            while k < n
                invariant
                    n == exts@.len(),
                    exts.deep_view().len() == exts@.len(),
                    forall|q: int| 0 <= q < exts@.len() ==> exts.deep_view()[q] == exts@[q]@,
                    k <= n,
                    ext@ == spec_extension(name@)->Some_0,
                    spec_extension(name@) is Some,
                    forall|q: int| 0 <= q < k ==> exts.deep_view()[q] != ext@,
                decreases n - k,
            {
                if str_eq(exts[k].as_str(), ext) {
                    proof {
                        assert(exts.deep_view()[k as int] == spec_extension(name@)->Some_0);
                    }
                    return true;
                }
                k += 1;
            }
            false
        },
    }
}

} // verus!
