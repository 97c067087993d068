//! Dotted key paths into a JSON tree.
//!
//! A key may itself hold dots, so a path `a.b.c` is ambiguous: at every
//! object the longest leading run of segments that, joined by dots, names
//! an existing key is taken as one key, and the rest of the path is
//! resolved below it. There is no falling back to a shorter run once a
//! longer one has matched.
use crate::json::{
    entries_view, find_key, key_index, lemma_entries_view, text_eq, Json, JsonValue,
};
use itertools::Itertools;
use vstd::prelude::*;
use vstd::slice::slice_subrange;

verus! {

/// The segments joined, with `sep` between neighbours.
pub open spec fn join_with(parts: Seq<Seq<char>>, sep: Seq<char>) -> Seq<char>
    decreases parts.len(),
{
    if parts.len() == 0 {
        Seq::empty()
    } else if parts.len() == 1 {
        parts[0]
    } else {
        join_with(parts.drop_last(), sep) + sep + parts.last()
    }
}

/// The segments joined by dots.
pub open spec fn dotted(parts: Seq<Seq<char>>) -> Seq<char> {
    join_with(parts, "."@)
}

/// The segments of a path as character sequences.
pub open spec fn path_view(path: Seq<String>) -> Seq<Seq<char>> {
    path.map_values(|s: String| s@)
}

/// What `get_child` finds when only leading runs of at most `n` segments
/// are tried as a key, longest first.
pub open spec fn get_from(v: JsonValue, path: Seq<Seq<char>>, n: nat) -> Option<JsonValue>
    decreases path.len(), n,
{
    if n == 0 || n > path.len() {
        None
    } else {
        match v.field(dotted(path.take(n as int))) {
            Some(inner) => get_child(inner, path.skip(n as int)),
            None => get_from(v, path, (n - 1) as nat),
        }
    }
}

/// The value that `path` leads to below `v`: `v` itself for the empty path.
pub open spec fn get_child(v: JsonValue, path: Seq<Seq<char>>) -> Option<JsonValue>
    decreases path.len(), path.len() + 1,
{
    if path.len() == 0 {
        Some(v)
    } else {
        get_from(v, path, path.len())
    }
}

/// What `pop_child` does once the whole path has failed as one key and only
/// leading runs of at most `n` segments, all shorter than the path, are
/// tried.
pub open spec fn pop_from(v: JsonValue, path: Seq<Seq<char>>, n: nat) -> (
    JsonValue,
    Option<JsonValue>,
)
    decreases path.len(), n,
{
    if n == 0 || n >= path.len() {
        (v, None)
    } else {
        let key = dotted(path.take(n as int));
        match v.field(key) {
            Some(inner) => {
                let below = pop_child(inner, path.skip(n as int));
                (v.with_field(key, below.0), below.1)
            },
            None => pop_from(v, path, (n - 1) as nat),
        }
    }
}

/// The tree without the entry that `path` leads to, and the value taken
/// out. The whole path joined by dots is tried as a key of `v` first (for
/// the empty path that key is the empty string).
pub open spec fn pop_child(v: JsonValue, path: Seq<Seq<char>>) -> (JsonValue, Option<JsonValue>)
    decreases path.len(), path.len(),
{
    let direct = v.remove_field(dotted(path));
    if direct.1 is Some {
        direct
    } else if path.len() == 0 {
        (v, None)
    } else {
        pop_from(v, path, (path.len() - 1) as nat)
    }
}

/// The text without the characters at its start that `drop` holds of.
pub open spec fn trim_start_by(s: Seq<char>, drop: spec_fn(char) -> bool) -> Seq<char>
    decreases s.len(),
{
    if s.len() > 0 && drop(s[0]) {
        trim_start_by(s.drop_first(), drop)
    } else {
        s
    }
}

/// The text without the characters at its end that `drop` holds of.
pub open spec fn trim_end_by(s: Seq<char>, drop: spec_fn(char) -> bool) -> Seq<char>
    decreases s.len(),
{
    if s.len() > 0 && drop(s.last()) {
        trim_end_by(s.drop_last(), drop)
    } else {
        s
    }
}

/// The text without the characters at its two ends that `drop` holds of.
pub open spec fn trimmed_by(s: Seq<char>, drop: spec_fn(char) -> bool) -> Seq<char> {
    trim_end_by(trim_start_by(s, drop), drop)
}

/// Trimming at the start leaves nothing exactly where `drop` holds of
/// every character; what it leaves does not start with such a character.
pub proof fn lemma_trim_start_by(s: Seq<char>, drop: spec_fn(char) -> bool)
    ensures
        trim_start_by(s, drop).len() == 0 <==> forall|i: int| 0 <= i < s.len() ==> drop(#[trigger] s[i]),
        trim_start_by(s, drop).len() > 0 ==> !drop(trim_start_by(s, drop)[0]),
    decreases s.len(),
{
    if s.len() > 0 && drop(s[0]) {
        let rest = s.drop_first();
        lemma_trim_start_by(rest, drop);
        if forall|i: int| 0 <= i < rest.len() ==> drop(#[trigger] rest[i]) {
            assert forall|i: int| 0 <= i < s.len() implies drop(#[trigger] s[i]) by {
                if i > 0 {
                    assert(s[i] == rest[i - 1]);
                }
            }
        }
        if forall|i: int| 0 <= i < s.len() ==> drop(#[trigger] s[i]) {
            assert forall|i: int| 0 <= i < rest.len() implies drop(#[trigger] rest[i]) by {
                assert(rest[i] == s[i + 1]);
            }
        }
    }
}

/// Trimming at the end leaves nothing exactly where `drop` holds of every
/// character.
pub proof fn lemma_trim_end_by(s: Seq<char>, drop: spec_fn(char) -> bool)
    ensures
        trim_end_by(s, drop).len() == 0 <==> forall|i: int| 0 <= i < s.len() ==> drop(#[trigger] s[i]),
    decreases s.len(),
{
    if s.len() > 0 && drop(s.last()) {
        let rest = s.drop_last();
        lemma_trim_end_by(rest, drop);
        if forall|i: int| 0 <= i < rest.len() ==> drop(#[trigger] rest[i]) {
            assert forall|i: int| 0 <= i < s.len() implies drop(#[trigger] s[i]) by {
                if i < rest.len() {
                    assert(s[i] == rest[i]);
                }
            }
        }
        if forall|i: int| 0 <= i < s.len() ==> drop(#[trigger] s[i]) {
            assert forall|i: int| 0 <= i < rest.len() implies drop(#[trigger] rest[i]) by {
                assert(rest[i] == s[i]);
            }
        }
    }
}

/// Trimming leaves nothing exactly where `drop` holds of every character.
pub proof fn lemma_trimmed_by_empty(s: Seq<char>, drop: spec_fn(char) -> bool)
    ensures
        trimmed_by(s, drop).len() == 0 <==> forall|i: int| 0 <= i < s.len() ==> drop(#[trigger] s[i]),
{
    lemma_trim_start_by(s, drop);
    lemma_trim_end_by(trim_start_by(s, drop), drop);
    let t = trim_start_by(s, drop);
    if t.len() > 0 {
        assert(!drop(t[0]));
    }
}

pub open spec fn opt_view(o: Option<Json>) -> Option<JsonValue> {
    match o {
        Some(j) => Some(j@),
        None => None,
    }
}

/// `Itertools::join` on the segments: the first segment, then for each
/// further one the separator and the segment; the empty string for none.
#[verifier::external_body]
pub(crate) fn join(parts: &[String], sep: &str) -> (joined: String)
    ensures
        joined@ == join_with(path_view(parts@), sep@),
{
    Itertools::join(&mut parts.iter(), sep)
}

/// The longest leading run of at most `limit` segments that names a key of
/// `entries`: its length and the key's position.
fn longest_prefix(entries: &Vec<(String, Json)>, path: &[String], limit: usize) -> (hit: Option<
    (usize, usize),
>)
    requires
        limit <= path.len(),
    ensures
        match hit {
            Some((n, at)) => {
                &&& 1 <= n <= limit
                &&& at < entries.len()
                &&& at == key_index(entries_view(entries@), dotted(path_view(path@).take(n as int)))
                &&& forall|k: int|
                    n < k <= limit ==> key_index(
                        entries_view(entries@),
                        #[trigger] dotted(path_view(path@).take(k)),
                    ) >= entries.len()
            },
            None => forall|k: int|
                1 <= k <= limit ==> key_index(
                    entries_view(entries@),
                    #[trigger] dotted(path_view(path@).take(k)),
                ) >= entries.len(),
        },
{
    let mut n: usize = limit;
    while n > 0
        invariant
            n <= limit <= path.len(),
            forall|k: int|
                n < k <= limit ==> key_index(
                    entries_view(entries@),
                    #[trigger] dotted(path_view(path@).take(k)),
                ) >= entries.len(),
        decreases n,
    {
        let head = slice_subrange(path, 0, n);
        let key = join(head, ".");
        let at = find_key(entries, key.as_str());
        proof {
            assert(path_view(head@) =~= path_view(path@).take(n as int));
        }
        if at < entries.len() {
            return Some((n, at));
        }
        n -= 1;
    }
    None
}

/// With no leading run longer than `n` naming a key, trying runs up to
/// `limit` is trying runs up to `n`.
proof fn lemma_get_from_skip(v: JsonValue, path: Seq<Seq<char>>, limit: nat, n: nat)
    requires
        n <= limit <= path.len(),
        forall|k: int| n < k <= limit ==> !v.has_field(#[trigger] dotted(path.take(k))),
    ensures
        get_from(v, path, limit) == get_from(v, path, n),
    decreases limit,
{
    if limit > n {
        assert(!v.has_field(dotted(path.take(limit as int))));
        lemma_get_from_skip(v, path, (limit - 1) as nat, n);
    }
}

proof fn lemma_pop_from_skip(v: JsonValue, path: Seq<Seq<char>>, limit: nat, n: nat)
    requires
        n <= limit < path.len(),
        forall|k: int| n < k <= limit ==> !v.has_field(#[trigger] dotted(path.take(k))),
    ensures
        pop_from(v, path, limit) == pop_from(v, path, n),
    decreases limit,
{
    if limit > n {
        assert(!v.has_field(dotted(path.take(limit as int))));
        lemma_pop_from_skip(v, path, (limit - 1) as nat, n);
    }
}

/// The value that `path` leads to below `value`, if any.
pub fn get_value_child<'a>(value: &'a Json, path: &[String]) -> (found: Option<&'a Json>)
    ensures
        match found {
            Some(inner) => get_child(value@, path_view(path@)) == Some(inner@),
            None => get_child(value@, path_view(path@)) is None,
        },
    decreases path.len(),
{
    let n_parts = path.len();
    if n_parts == 0 {
        return Some(value);
    }
    let ghost p = path_view(path@);
    match value {
        Json::Object(entries) => {
            proof {
                lemma_entries_view(entries@);
            }
            match longest_prefix(entries, path, n_parts) {
                Some((n, at)) => {
                    let tail = slice_subrange(path, n, n_parts);
                    proof {
                        assert(path_view(tail@) =~= p.skip(n as int));
                        lemma_get_from_skip(value@, p, n_parts as nat, n as nat);
                    }
                    get_value_child(&entries[at].1, tail)
                },
                None => {
                    proof {
                        lemma_get_from_skip(value@, p, n_parts as nat, 0);
                    }
                    None
                },
            }
        },
        _ => {
            proof {
                lemma_get_from_skip(value@, p, n_parts as nat, 0);
            }
            None
        },
    }
}

/// Takes the entry that `path` leads to out of the tree and returns its
/// value: `None`, and the tree unchanged, where the path leads nowhere.
pub fn pop_value_child(value: &mut Json, path: &[String]) -> (removed: Option<Json>)
    ensures
        (final(value)@, opt_view(removed)) == pop_child(old(value)@, path_view(path@)),
    decreases path.len(),
{
    let n_parts = path.len();
    let ghost p = path_view(path@);
    let ghost before = value@;
    match value {
        Json::Object(entries) => {
            let ghost ev = entries_view(entries@);
            proof {
                lemma_entries_view(entries@);
            }
            let whole = join(path, ".");
            let at = find_key(entries, whole.as_str());
            if at < entries.len() {
                let taken = entries.swap_remove(at);
                proof {
                    lemma_entries_view(entries@);
                    assert(entries_view(entries@) =~= ev.update(at as int, ev.last()).drop_last());
                }
                return Some(taken.1);
            }
            if n_parts == 0 {
                return None;
            }
            match longest_prefix(entries, path, n_parts - 1) {
                Some((n, at)) => {
                    let tail = slice_subrange(path, n, n_parts);
                    proof {
                        assert(path_view(tail@) =~= p.skip(n as int));
                        lemma_pop_from_skip(before, p, (n_parts - 1) as nat, n as nat);
                    }
                    let ghost inner = entries[at as int].1@;
                    let removed = pop_value_child(&mut entries[at].1, tail);
                    proof {
                        lemma_entries_view(entries@);
                        assert(entries_view(entries@) =~= ev.update(
                            at as int,
                            (ev[at as int].0, pop_child(inner, p.skip(n as int)).0),
                        ));
                    }
                    removed
                },
                None => {
                    proof {
                        lemma_pop_from_skip(before, p, (n_parts - 1) as nat, 0);
                    }
                    None
                },
            }
        },
        _ => {
            proof {
                if n_parts > 0 {
                    lemma_pop_from_skip(before, p, (n_parts - 1) as nat, 0);
                }
            }
            None
        },
    }
}

/// Whether `list` holds the text `s`.
pub fn contains_text(list: &Vec<String>, s: &str) -> (found: bool)
    ensures
        found == path_view(list@).contains(s@),
{
    let mut i: usize = 0;
    while i < list.len()
        invariant
            i <= list.len(),
            forall|j: int| 0 <= j < i ==> (#[trigger] list[j])@ != s@,
        decreases list.len() - i,
    {
        if text_eq(list[i].as_str(), s) {
            proof {
                assert(path_view(list@)[i as int] == s@);
            }
            return true;
        }
        i += 1;
    }
    proof {
        let all = path_view(list@);
        assert forall|j: int| 0 <= j < all.len() implies all[j] != s@ by {
            assert(list[j]@ != s@);
        }
    }
    false
}

} // verus!
