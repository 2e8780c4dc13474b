//! Whether the store sits under a folder a consumer sync client owns —
//! where locks, which are local kernel state, would not protect anything.

use vstd::prelude::*;

use crate::text::{chars_of, lowercase, string_of_range, to_lower};

verus! {

/// The components of a path written as text: the pieces between `'/'`
/// separators, with empty pieces and `"."` left out (as `Path::components`
/// yields them on Unix, the root aside).
pub open spec fn path_parts_upto(s: Seq<char>, n: int) -> (Seq<Seq<char>>, int)
    decreases n,
{
    if n <= 0 {
        (Seq::empty(), 0)
    } else {
        let (ps, st) = path_parts_upto(s, n - 1);
        if s[n - 1] == '/' {
            (keep_part(ps, s.subrange(st, n - 1)), n)
        } else {
            (ps, st)
        }
    }
}

/// `ps` with `part` added unless it is empty or `"."`.
pub open spec fn keep_part(ps: Seq<Seq<char>>, part: Seq<char>) -> Seq<Seq<char>> {
    if part.len() == 0 || part == seq!['.'] {
        ps
    } else {
        ps.push(part)
    }
}

/// The components of the path `s`.
pub open spec fn path_parts(s: Seq<char>) -> Seq<Seq<char>> {
    let (ps, st) = path_parts_upto(s, s.len() as int);
    keep_part(ps, s.subrange(st, s.len() as int))
}

/// The folder names sync clients use (lowercase): Dropbox, iCloud Drive
/// (on disk and by name), OneDrive, Google Drive, Sync.com, and the macOS
/// `CloudStorage` folder that holds the newer OneDrive and Google Drive.
pub open spec fn sync_names() -> Seq<Seq<char>> {
    seq![
        "dropbox"@,
        "mobile documents"@,
        "icloud drive"@,
        "onedrive"@,
        "google drive"@,
        "sync.com"@,
        "cloudstorage"@,
    ]
}

/// A (lowercased) folder name belongs to a sync client: it is one of the
/// names, or one of them followed by a space (`Dropbox (Personal)`,
/// `OneDrive - Acme Corp`).
pub open spec fn sync_name(name: Seq<char>) -> bool {
    exists|i: int|
        0 <= i < sync_names().len() && (name == sync_names()[i] || (name.len()
            > sync_names()[i].len() && name.take(sync_names()[i].len() as int)
            == sync_names()[i] && name[sync_names()[i].len() as int] == ' '))
}

/// Whether the path `root` has a component that, lowercased, is a sync
/// client's folder name. A heuristic: it only ever warns.
pub open spec fn synced(root: Seq<char>) -> bool {
    exists|k: int| 0 <= k < path_parts(root).len() && sync_name(lowercase(path_parts(root)[k]))
}

/// Whether `name` is `s`, or `s` followed by a space.
fn names_or_prefixes(name: &[char], s: &str) -> (r: bool)
    ensures
        r == (name@ == s@ || (name@.len() > s@.len() && name@.take(s@.len() as int) == s@
            && name@[s@.len() as int] == ' ')),
{
    let v = chars_of(s);
    if name.len() < v.len() {
        proof {
            if name@ == s@ {
                assert(name@.len() == s@.len());
            }
        }
        return false;
    }
    let same_start = crate::text::range_eq(name, 0, v.len(), v.as_slice(), 0, v.len());
    assert(v@.subrange(0, v.len() as int) =~= v@);
    assert(name@.subrange(0, v.len() as int) =~= name@.take(v.len() as int));
    if !same_start {
        proof {
            if name@ == s@ {
                assert(name@.take(v.len() as int) =~= name@);
            }
        }
        return false;
    }
    if name.len() == v.len() {
        assert(name@ =~= name@.take(v.len() as int));
        return true;
    }
    proof {
        if name@ == s@ {
            assert(name@.len() == s@.len());
        }
    }
    name[v.len()] == ' '
}

/// Whether the lowercased component `name` belongs to a sync client.
fn is_sync_name(name: &[char]) -> (r: bool)
    ensures
        r == sync_name(name@),
{
    let r = names_or_prefixes(name, "dropbox") || names_or_prefixes(name, "mobile documents")
        || names_or_prefixes(name, "icloud drive") || names_or_prefixes(name, "onedrive")
        || names_or_prefixes(name, "google drive") || names_or_prefixes(name, "sync.com")
        || names_or_prefixes(name, "cloudstorage");
    proof {
        let ns = sync_names();
        if r {
            let i = if names_or_prefixes_spec(name@, ns[0]) {
                0int
            } else if names_or_prefixes_spec(name@, ns[1]) {
                1int
            } else if names_or_prefixes_spec(name@, ns[2]) {
                2int
            } else if names_or_prefixes_spec(name@, ns[3]) {
                3int
            } else if names_or_prefixes_spec(name@, ns[4]) {
                4int
            } else if names_or_prefixes_spec(name@, ns[5]) {
                5int
            } else {
                6int
            };
            assert(names_or_prefixes_spec(name@, ns[i]));
        } else {
            assert forall|i: int| 0 <= i < ns.len() implies !names_or_prefixes_spec(
                name@,
                #[trigger] ns[i],
            ) by {
                assert(i == 0 || i == 1 || i == 2 || i == 3 || i == 4 || i == 5 || i == 6);
            }
        }
    }
    r
}

/// `name` is `s` or `s` followed by a space.
pub open spec fn names_or_prefixes_spec(name: Seq<char>, s: Seq<char>) -> bool {
    name == s || (name.len() > s.len() && name.take(s.len() as int) == s && name[s.len() as int]
        == ' ')
}

proof fn lemma_dot(s: Seq<char>, a: int, b: int)
    requires
        0 <= a <= b <= s.len(),
    ensures
        (s.subrange(a, b) == seq!['.']) <==> (b == a + 1 && s[a] == '.'),
        (s.subrange(a, b).len() == 0) <==> (a == b),
{
    if s.subrange(a, b) == seq!['.'] {
        assert(s.subrange(a, b).len() == 1);
        assert(s.subrange(a, b)[0] == s[a]);
    }
    if b == a + 1 && s[a] == '.' {
        assert(s.subrange(a, b) =~= seq!['.']);
    }
}

/// Whether the store at `root` (a path, as text) sits under a folder a
/// consumer sync client owns (see `synced`).
pub fn looks_synced(root: &str) -> (r: bool)
    ensures
        r == synced(root@),
{
    let v = chars_of(root);
    let mut start: usize = 0;
    let mut i: usize = 0;
    let ghost parts: Seq<Seq<char>> = Seq::empty();
    let mut found = false;
    while i < v.len()
        invariant
            i <= v.len(),
            start <= i,
            v@ == root@,
            (parts, start as int) == path_parts_upto(root@, i as int),
            found == exists|k: int| 0 <= k < parts.len() && sync_name(lowercase(parts[k])),
        decreases v.len() - i,
    {
        if v[i] == '/' {
            let piece = string_of_range(v.as_slice(), start, i);
            let ghost before = parts;
            proof {
                parts = keep_part(parts, v@.subrange(start as int, i as int));
            }
            let empty_or_dot = (i == start) || (i == start + 1 && v[start] == '.');
            proof {
                lemma_dot(v@, start as int, i as int);
            }
            if !empty_or_dot {
                let low = to_lower(piece.as_str());
                let lv = chars_of(low.as_str());
                let hit = is_sync_name(lv.as_slice());
                proof {
                    assert(parts == before.push(v@.subrange(start as int, i as int)));
                    if hit {
                        assert(sync_name(lowercase(parts[parts.len() - 1])));
                    }
                    if found {
                        let k = choose|k: int| 0 <= k < before.len() && sync_name(lowercase(before[k]));
                        assert(parts[k] == before[k]);
                    }
                    if !found && !hit {
                        assert forall|k: int| 0 <= k < parts.len() implies !sync_name(lowercase(parts[k])) by {
                            if k < before.len() {
                                assert(parts[k] == before[k]);
                            }
                        }
                    }
                }
                found = found || hit;
            }
            start = i + 1;
        }
        i = i + 1;
    }
    let piece = string_of_range(v.as_slice(), start, v.len());
    let ghost before = parts;
    proof {
        parts = keep_part(parts, v@.subrange(start as int, v.len() as int));
        assert(parts == path_parts(root@));
    }
    let empty_or_dot = (v.len() == start) || (v.len() == start + 1 && v[start] == '.');
    proof {
        lemma_dot(v@, start as int, v.len() as int);
    }
    if !empty_or_dot {
        let low = to_lower(piece.as_str());
        let lv = chars_of(low.as_str());
        let hit = is_sync_name(lv.as_slice());
        proof {
            assert(parts == before.push(v@.subrange(start as int, v.len() as int)));
            if hit {
                assert(sync_name(lowercase(parts[parts.len() - 1])));
            }
            if found {
                let k = choose|k: int| 0 <= k < before.len() && sync_name(lowercase(before[k]));
                assert(parts[k] == before[k]);
            }
            if !found && !hit {
                assert forall|k: int| 0 <= k < parts.len() implies !sync_name(lowercase(parts[k])) by {
                    if k < before.len() {
                        assert(parts[k] == before[k]);
                    }
                }
            }
        }
        found = found || hit;
    }
    found
}

} // verus!
