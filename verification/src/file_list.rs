//! Building the candidate list from a directory listing: image files keep
//! the stem before their extension, everything else is ignored.  The
//! surrounding process enumerates the real directory and hands the file
//! names in; the selection itself is verified here.

use vstd::prelude::*;

use crate::worker::names_of;

verus! {

/// Whether `s` ends with `suffix`.
pub open spec fn has_suffix(s: Seq<char>, suffix: Seq<char>) -> bool {
    s.len() >= suffix.len() && s.subrange(s.len() - suffix.len(), s.len() as int) == suffix
}

/// The candidate name an image file name yields: the stem before a
/// recognised image extension — `.png`, `.jpg` or `.jpeg` — or nothing for
/// any other file.
pub open spec fn stem_of(name: Seq<char>) -> Option<Seq<char>> {
    if has_suffix(name, ".png"@) {
        Some(name.subrange(0, name.len() - ".png"@.len()))
    } else if has_suffix(name, ".jpg"@) {
        Some(name.subrange(0, name.len() - ".jpg"@.len()))
    } else if has_suffix(name, ".jpeg"@) {
        Some(name.subrange(0, name.len() - ".jpeg"@.len()))
    } else {
        None
    }
}

/// The candidate list a directory listing yields: the stems of its image
/// files, in enumeration order.
pub open spec fn candidates_of(names: Seq<Seq<char>>) -> Seq<Seq<char>>
    decreases names.len(),
{
    if names.len() == 0 {
        Seq::<Seq<char>>::empty()
    } else {
        let rest = candidates_of(names.drop_last());
        match stem_of(names.last()) {
            Some(st) => rest.push(st),
            None => rest,
        }
    }
}

/// Checks whether `s` ends with `suffix`, character by character.
fn ends_with_str(s: &str, suffix: &str) -> (r: bool)
    ensures
        r == has_suffix(s@, suffix@),
{
    let n = s.unicode_len();
    let m = suffix.unicode_len();
    if m > n {
        return false;
    }
    let mut i: usize = 0;
    while i < m
        invariant
            0 <= i <= m,
            m <= n,
            n == s@.len(),
            m == suffix@.len(),
            forall|j: int| 0 <= j < i ==> s@[n - m + j] == suffix@[j],
        decreases m - i,
    {
        if s.get_char(n - m + i) != suffix.get_char(i) {
            proof {
                assert(s@.subrange(n - m, n as int)[i as int] != suffix@[i as int]);
            }
            return false;
        }
        i += 1;
    }
    proof {
        assert(s@.subrange(n - m, n as int) =~= suffix@);
    }
    true
}

/// The stem of an image file name, or nothing for any other file.
pub fn image_stem(name: &String) -> (r: Option<String>)
    ensures
        match r {
            Some(st) => stem_of(name@) == Some(st@),
            None => stem_of(name@) is None,
        },
{
    let s = name.as_str();
    let n = s.unicode_len();
    if ends_with_str(s, ".png") {
        proof {
            reveal_strlit(".png");
        }
        Some(s.substring_char(0, n - 4).to_owned())
    } else if ends_with_str(s, ".jpg") {
        proof {
            reveal_strlit(".jpg");
        }
        Some(s.substring_char(0, n - 4).to_owned())
    } else if ends_with_str(s, ".jpeg") {
        proof {
            reveal_strlit(".jpeg");
        }
        Some(s.substring_char(0, n - 5).to_owned())
    } else {
        None
    }
}

/// Builds the candidate list from a directory listing: for each image file,
/// in enumeration order, the stem goes in; other files are skipped.
pub fn setup_file_list(names: &Vec<String>) -> (r: Vec<String>)
    ensures
        names_of(r@) == candidates_of(names_of(names@)),
{
    let ghost all = names_of(names@);
    let mut container: Vec<String> = Vec::new();
    proof {
        assert(names_of(container@) =~= Seq::<Seq<char>>::empty());
        assert(all.take(0) =~= Seq::<Seq<char>>::empty());
    }
    let n = names.len();
    let mut i: usize = 0;
    while i < n
        invariant
            0 <= i <= n,
            n == names.len(),
            all == names_of(names@),
            names_of(container@) == candidates_of(all.take(i as int)),
        decreases n - i,
    {
        let ghost before = names_of(container@);
        match image_stem(&names[i]) {
            Some(st) => {
                let ghost stv = st@;
                container.push(st);
                proof {
                    assert(names_of(container@) =~= before.push(stv));
                }
            },
            None => {},
        }
        proof {
            assert(names_of(names@)[i as int] == names@[i as int]@);
            assert(all.take(i + 1).drop_last() =~= all.take(i as int));
            assert(all.take(i + 1).last() == all[i as int]);
        }
        i += 1;
    }
    proof {
        assert(all.take(n as int) =~= all);
    }
    container
}

} // verus!
