use vstd::prelude::*;

use crate::declarations::{DeclarationEntry, DeclarationTable};
use crate::error::DumpError;

verus! {

/// The index of the entry that names the signal `id`: the last declaration
/// of that code, as a later declaration of a code replaces an earlier one; -1
/// where none declares it.
pub open spec fn name_index(entries: Seq<DeclarationEntry>, id: Seq<char>) -> int
    decreases entries.len(),
{
    if entries.len() == 0 {
        -1
    } else if entries.last().code@ == id {
        entries.len() - 1
    } else {
        name_index(entries.drop_last(), id)
    }
}

/// Whether some declaration names the signal `id`.
pub open spec fn declared(entries: Seq<DeclarationEntry>, id: Seq<char>) -> bool {
    name_index(entries, id) >= 0
}

/// The display name of a declared signal.
pub open spec fn name_of(entries: Seq<DeclarationEntry>, id: Seq<char>) -> Seq<char> {
    entries[name_index(entries, id)].reference@
}

pub proof fn lemma_name_index(entries: Seq<DeclarationEntry>, id: Seq<char>)
    ensures
        -1 <= name_index(entries, id) < entries.len(),
        name_index(entries, id) >= 0 ==> entries[name_index(entries, id)].code@ == id,
    decreases entries.len(),
{
    if entries.len() > 0 {
        lemma_name_index(entries.drop_last(), id);
    }
}

/// The entry that names `id`, searched from the end. The table stays the
/// vector of declarations in header order, where a later declaration of a
/// code wins: vstd specifies no map keyed by `String`, and this keeps the
/// last-wins rule in plain sight.
pub(crate) fn find_name(entries: &Vec<DeclarationEntry>, id: &String) -> (r: Option<usize>)
    ensures
        match r {
            Some(i) => i as int == name_index(entries@, id@),
            None => name_index(entries@, id@) == -1,
        },
{
    let mut i: usize = entries.len();
    assert(entries@.subrange(0, i as int) =~= entries@);
    while i > 0
        invariant
            i <= entries.len(),
            name_index(entries@, id@) == name_index(entries@.subrange(0, i as int), id@),
        decreases i,
    {
        assert(entries@.subrange(0, i as int).drop_last() =~= entries@.subrange(0, i - 1));
        if entries[i - 1].code == *id {
            return Some(i - 1);
        }
        i = i - 1;
    }
    None
}

/// Pairs each observed signal with its display name, in the order given.
/// Every observed identifier must be declared: the first one that is not
/// makes the whole resolution fail, and no entry is ever left out or made up.
pub fn resolve_names(ids: &Vec<String>, table: &DeclarationTable) -> (r: Result<
    Vec<(String, String)>,
    DumpError,
>)
    ensures
        r is Ok <==> forall|i: int| 0 <= i < ids.len() ==> declared(table.entries@, #[trigger] ids[i]@),
        r is Ok ==> r->Ok_0.len() == ids.len() && forall|i: int|
            0 <= i < ids.len() ==> (#[trigger] r->Ok_0[i]).0@ == ids[i]@ && r->Ok_0[i].1@ == name_of(
                table.entries@,
                ids[i]@,
            ),
        r is Err ==> exists|i: int|
            0 <= i < ids.len() && !declared(table.entries@, #[trigger] ids[i]@) && (forall|j: int|
                0 <= j < i ==> declared(table.entries@, #[trigger] ids[j]@)) && r->Err_0
                == DumpError::Undeclared(ids[i]),
{
    let mut r: Vec<(String, String)> = Vec::new();
    let mut i: usize = 0;
    while i < ids.len()
        invariant
            i <= ids.len(),
            r.len() == i,
            forall|j: int| 0 <= j < i ==> declared(table.entries@, #[trigger] ids[j]@),
            forall|j: int|
                0 <= j < i ==> (#[trigger] r[j]).0@ == ids[j]@ && r[j].1@ == name_of(
                    table.entries@,
                    ids[j]@,
                ),
        decreases ids.len() - i,
    {
        proof {
            lemma_name_index(table.entries@, ids[i as int]@);
        }
        match find_name(&table.entries, &ids[i]) {
            Some(k) => {
                r.push((ids[i].clone(), table.entries[k].reference.clone()));
            },
            None => {
                return Err(DumpError::Undeclared(ids[i].clone()));
            },
        }
        i = i + 1;
    }
    Ok(r)
}

} // verus!
