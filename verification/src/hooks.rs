//! What the hook on large files decides.
use crate::extra_keys::{split_char, split_on};
use crate::json::text_eq;
use crate::utils::{contains_text, path_view, trimmed_by};
use vstd::prelude::*;

verus! {

/// The largest size in KB that a file may have, unless another is given.
pub const DEFAULT_MAX_SIZE_KB: u64 = 500;

/// A size in bytes as a number of KB, rounded up.
pub open spec fn kb_of(size: int) -> int {
    (size + 1023) / 1024
}

/// A size in bytes as a number of KB, rounded up.
pub fn size_in_kb(size: u64) -> (kb: u64)
    ensures
        kb == kb_of(size as int),
{
    if size % 1024 == 0 {
        size / 1024
    } else {
        size / 1024 + 1
    }
}

/// Whether a file of `size` bytes is over the limit of `maxkb` KB, or of
/// the default where none is given.
pub fn exceeds_limit(size: u64, maxkb: Option<u64>) -> (over: bool)
    ensures
        over == (kb_of(size as int) > (match maxkb {
            Some(m) => m,
            None => DEFAULT_MAX_SIZE_KB,
        })),
{
    let max_size_kb = match maxkb {
        Some(m) => m,
        None => DEFAULT_MAX_SIZE_KB,
    };
    size_in_kb(size) > max_size_kb
}

/// The text without the occurrences of `c` at its two ends.
pub open spec fn trimmed_of(s: Seq<char>, c: char) -> Seq<char> {
    trimmed_by(s, |x: char| x == c)
}

/// `str::trim_matches` with a character: the text without the
/// occurrences of `c` at its two ends.
#[verifier::external_body]
pub(crate) fn trim_char(s: &str, c: char) -> (t: &str)
    ensures
        t@ == trimmed_of(s@, c),
{
    s.trim_matches(c)
}

/// Of the records of three fields each that the first `n` whole records
/// of `fields` make, the first field of each whose third is `lfs`.
pub open spec fn lfs_names(fields: Seq<Seq<char>>, n: nat) -> Seq<Seq<char>>
    decreases n,
{
    if n == 0 || 3 * n > fields.len() {
        Seq::empty()
    } else if fields[3 * n - 1] == "lfs"@ {
        lfs_names(fields, (n - 1) as nat).push(fields[3 * n - 3])
    } else {
        lfs_names(fields, (n - 1) as nat)
    }
}

/// The files that git's large file storage holds, from what
/// `git check-attr filter -z` printed: records of a name, the attribute
/// and its value, each field ended by a NUL.
pub open spec fn lfs_files_of(output: Seq<char>) -> Seq<Seq<char>> {
    let fields = split_on(trimmed_of(output, '\0'), '\0');
    lfs_names(fields, (fields.len() / 3) as nat)
}

/// The files that git's large file storage holds, from what
/// `git check-attr filter -z` printed.
pub fn lfs_files(output: &str) -> (names: Vec<String>)
    ensures
        path_view(names@) == lfs_files_of(output@),
{
    let fields = split_char(trim_char(output, '\0'), '\0');
    let ghost all = path_view(fields@);
    let records = fields.len() / 3;
    let mut names: Vec<String> = Vec::new();
    let mut n: usize = 0;
    proof {
        assert(path_view(names@) =~= Seq::empty());
    }
    while n < records
        invariant
            n <= records,
            records == fields.len() / 3,
            all == path_view(fields@),
            all.len() == fields.len(),
            path_view(names@) == lfs_names(all, n as nat),
        decreases records - n,
    {
        let ghost before = names@;
        assert(all[3 * n + 2] == fields[3 * n + 2]@);
        assert(all[3 * n as int] == fields[3 * n as int]@);
        if text_eq(fields[3 * n + 2].as_str(), "lfs") {
            names.push(fields[3 * n].clone());
            proof {
                assert(path_view(names@) =~= path_view(before).push(all[3 * n as int]));
            }
        }
        n += 1;
    }
    names
}

/// The files of `files` that `other` holds too, in order.
pub open spec fn both(files: Seq<Seq<char>>, other: Seq<Seq<char>>) -> Seq<Seq<char>>
    decreases files.len(),
{
    if files.len() == 0 {
        Seq::empty()
    } else if other.contains(files.last()) {
        both(files.drop_last(), other).push(files.last())
    } else {
        both(files.drop_last(), other)
    }
}

/// The files of `files` that `other` does not hold, in order.
pub open spec fn only_in(files: Seq<Seq<char>>, other: Seq<Seq<char>>) -> Seq<Seq<char>>
    decreases files.len(),
{
    if files.len() == 0 {
        Seq::empty()
    } else if other.contains(files.last()) {
        only_in(files.drop_last(), other)
    } else {
        only_in(files.drop_last(), other).push(files.last())
    }
}

/// The files to measure: those given that large file storage does not
/// hold and, where `added` is given, that it holds.
pub fn files_to_check(files: &Vec<String>, lfs: &Vec<String>, added: Option<&Vec<String>>) -> (left: Vec<
    String,
>)
    ensures
        path_view(left@) == (match added {
            Some(a) => both(only_in(path_view(files@), path_view(lfs@)), path_view(a@)),
            None => only_in(path_view(files@), path_view(lfs@)),
        }),
{
    let ghost all = path_view(files@);
    let ghost gone = path_view(lfs@);
    let mut left: Vec<String> = Vec::new();
    let mut i: usize = 0;
    proof {
        assert(all.take(0) =~= Seq::empty());
        assert(path_view(left@) =~= Seq::empty());
    }
    while i < files.len()
        invariant
            i <= files.len(),
            all == path_view(files@),
            all.len() == files.len(),
            gone == path_view(lfs@),
            path_view(left@) == (match added {
                Some(a) => both(only_in(all.take(i as int), gone), path_view(a@)),
                None => only_in(all.take(i as int), gone),
            }),
        decreases files.len() - i,
    {
        let ghost before = left@;
        proof {
            assert(all.take(i + 1).drop_last() =~= all.take(i as int));
            assert(all.take(i + 1).last() == files[i as int]@);
        }
        let name = &files[i];
        let wanted = !contains_text(lfs, name.as_str()) && match added {
            Some(a) => contains_text(a, name.as_str()),
            None => true,
        };
        proof {
            if !gone.contains(name@) {
                let fresh = only_in(all.take(i + 1), gone);
                assert(fresh.drop_last() =~= only_in(all.take(i as int), gone));
                assert(fresh.last() == name@);
            }
        }
        if wanted {
            left.push(name.clone());
            proof {
                assert(path_view(left@) =~= path_view(before).push(name@));
            }
        }
        i += 1;
    }
    proof {
        assert(all.take(i as int) =~= all);
    }
    left
}

} // verus!
