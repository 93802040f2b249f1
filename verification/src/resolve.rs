//! The target resolver: maps a device identity to the base path of its
//! assigned firmware image through the mapping table. The table is the text
//! of the targets file, one `identity,relative-path` entry per line; the
//! first line whose identity field matches wins, by exact string comparison,
//! and whitespace is stripped from the path field.

use vstd::prelude::*;

use crate::errors::ResolutionError;
use crate::text::{lines_of, remove_whitespace, spec_lines, spec_split, split_on, str_eq, strip_spaces, views};

verus! {

/// Whether a table line is an entry for identity `id`: it has at least one
/// comma and the text before the first comma is exactly `id`.
pub open spec fn entry_matches(line: Seq<char>, id: Seq<char>) -> bool {
    let f = spec_split(line, ',');
    f.len() >= 2 && f[0] == id
}

/// The path field of a table line: the text between the first comma and the
/// next comma or the line's end, with all whitespace removed.
pub open spec fn entry_path(line: Seq<char>) -> Seq<char> {
    strip_spaces(spec_split(line, ',')[1])
}

/// The path of the first line of `lines` that is an entry for `id`.
pub open spec fn resolve_lines(lines: Seq<Seq<char>>, id: Seq<char>) -> Option<Seq<char>>
    decreases lines.len(),
{
    if lines.len() == 0 {
        None
    } else if entry_matches(lines[0], id) {
        Some(entry_path(lines[0]))
    } else {
        resolve_lines(lines.drop_first(), id)
    }
}

/// What resolving identity `id` against the mapping table text yields.
pub open spec fn spec_resolve(table: Seq<char>, id: Seq<char>) -> Option<Seq<char>> {
    resolve_lines(spec_lines(table), id)
}

proof fn lemma_resolve_lines_skip(lines: Seq<Seq<char>>, id: Seq<char>, i: int)
    requires
        0 <= i <= lines.len(),
        forall|j: int| 0 <= j < i ==> !entry_matches(lines[j], id),
    ensures
        resolve_lines(lines, id) == resolve_lines(lines.skip(i), id),
    decreases i,
{
    if i > 0 {
        lemma_resolve_lines_skip(lines.drop_first(), id, i - 1);
        assert(lines.drop_first().skip(i - 1) =~= lines.skip(i));
    } else {
        assert(lines.skip(0) =~= lines);
    }
}

/// Resolution is a pure function of the table text and the identity: no
/// entry for `id` means no target mapping, whatever else the table holds.
pub proof fn lemma_resolve_unknown(lines: Seq<Seq<char>>, id: Seq<char>)
    ensures
        resolve_lines(lines, id) is None <==> (forall|i: int|
            0 <= i < lines.len() ==> !entry_matches(lines[i], id)),
    decreases lines.len(),
{
    if lines.len() > 0 {
        lemma_resolve_unknown(lines.drop_first(), id);
        if resolve_lines(lines, id) is None {
            assert forall|i: int| 0 <= i < lines.len() implies !entry_matches(lines[i], id) by {
                if i > 0 {
                    assert(lines.drop_first()[i - 1] == lines[i]);
                }
            }
        }
    }
}

/// Resolves a device identity to the base path of its assigned firmware
/// image: the whitespace-stripped path field of the first mapping-table line
/// whose identity field is exactly `id`. No matching entry is a resolution
/// error, never a crash.
pub fn resolve(table: &str, id: &str) -> (r: Result<String, ResolutionError>)
    ensures
        match r {
            Ok(p) => spec_resolve(table@, id@) == Some(p@),
            Err(e) => spec_resolve(table@, id@) is None && e == ResolutionError::NoTargetMapping,
        },
{
    let lines = lines_of(table);
    let ghost lv = views(lines@);
    let n = lines.len();
    let mut i: usize = 0;
    while i < n
        invariant
            i <= n,
            n == lines@.len(),
            lv == views(lines@),
            lv == spec_lines(table@),
            forall|j: int| 0 <= j < i ==> !entry_matches(lv[j], id@),
        decreases n - i,
    {
        let fields = split_on(lines[i].as_str(), ',');
        if fields.len() >= 2 && str_eq(fields[0].as_str(), id) {
            let path = remove_whitespace(fields[1].as_str());
            proof {
                lemma_resolve_lines_skip(lv, id@, i as int);
                assert(lv.skip(i as int)[0] == lv[i as int]);
                assert(views(fields@)[0] == fields@[0]@);
                assert(views(fields@)[1] == fields@[1]@);
            }
            return Ok(path);
        }
        proof {
            assert(views(fields@)[0] == fields@[0]@);
        }
        i = i + 1;
    }
    proof {
        lemma_resolve_lines_skip(lv, id@, n as int);
        assert(lv.skip(n as int) =~= Seq::<Seq<char>>::empty());
    }
    Err(ResolutionError::NoTargetMapping)
}

} // verus!
