use vstd::prelude::*;
use vstd::string::to_string_from_display_ensures;

use crate::error::DumpError;

verus! {

/// One declared signal: its identifier code, its reference name, its type
/// tag, its width, and its index within a vector if it has one, all as the
/// header writes them.
#[derive(Debug)]
pub struct DeclarationEntry {
    pub code: String,
    pub reference: String,
    pub var_type: String,
    pub size: u32,
    pub index: Option<String>,
}

/// The declarations that the header makes visible, in header order, and the
/// identifiers of the nested scopes that were skipped.
#[derive(Debug)]
pub struct DeclarationTable {
    pub entries: Vec<DeclarationEntry>,
    pub skipped: Vec<String>,
}

/// The variables declared directly among `items`.
pub open spec fn scope_vars(items: Seq<vcd::ScopeItem>) -> Seq<vcd::Var>
    decreases items.len(),
{
    if items.len() == 0 {
        seq![]
    } else {
        let rest = scope_vars(items.drop_last());
        match items.last() {
            vcd::ScopeItem::Var(v) => rest.push(v),
            _ => rest,
        }
    }
}

/// The identifiers of the scopes nested directly among `items`.
pub open spec fn nested_scopes(items: Seq<vcd::ScopeItem>) -> Seq<Seq<char>>
    decreases items.len(),
{
    if items.len() == 0 {
        seq![]
    } else {
        let rest = nested_scopes(items.drop_last());
        match items.last() {
            vcd::ScopeItem::Scope(s) => rest.push(s.identifier@),
            _ => rest,
        }
    }
}

/// The variables visible through the root scopes: those declared directly in
/// a root scope. Deeper scopes contribute nothing.
pub open spec fn declared_vars(roots: Seq<vcd::ScopeItem>) -> Seq<vcd::Var>
    decreases roots.len(),
{
    if roots.len() == 0 {
        seq![]
    } else {
        let rest = declared_vars(roots.drop_last());
        match roots.last() {
            vcd::ScopeItem::Scope(s) => rest + scope_vars(s.items@),
            _ => rest,
        }
    }
}

/// The scopes nested inside root scopes, which are skipped.
pub open spec fn skipped_scopes(roots: Seq<vcd::ScopeItem>) -> Seq<Seq<char>>
    decreases roots.len(),
{
    if roots.len() == 0 {
        seq![]
    } else {
        let rest = skipped_scopes(roots.drop_last());
        match roots.last() {
            vcd::ScopeItem::Scope(s) => rest + nested_scopes(s.items@),
            _ => rest,
        }
    }
}

/// Whether a variable stands at the root of the header, outside any scope.
pub open spec fn has_root_var(roots: Seq<vcd::ScopeItem>) -> bool {
    exists|i: int| 0 <= i < roots.len() && #[trigger] roots[i] matches vcd::ScopeItem::Var(_)
}

/// Whether `e` records the declaration `v`.
pub open spec fn entry_of(e: DeclarationEntry, v: vcd::Var) -> bool {
    &&& to_string_from_display_ensures::<vcd::IdCode>(&v.code, e.code)
    &&& e.reference@ == v.reference@
    &&& to_string_from_display_ensures::<vcd::VarType>(&v.var_type, e.var_type)
    &&& e.size == v.size
    &&& match v.index {
        Some(i) => e.index is Some && to_string_from_display_ensures::<vcd::ReferenceIndex>(
            &i,
            e.index->Some_0,
        ),
        None => e.index is None,
    }
}

/// Whether `t` is the table of the header items `roots`.
pub open spec fn table_of(t: DeclarationTable, roots: Seq<vcd::ScopeItem>) -> bool {
    let vars = declared_vars(roots);
    &&& t.entries.len() == vars.len()
    &&& forall|i: int| 0 <= i < vars.len() ==> entry_of(#[trigger] t.entries[i], vars[i])
    &&& t.skipped@.map_values(|s: String| s@) == skipped_scopes(roots)
}

/// Builds the declaration table from the root items of a header. Each root
/// item must be a scope (comments aside); the variables declared directly in
/// a root scope are taken in order, and a scope nested in a root scope is
/// skipped with its variables, its identifier kept as a diagnostic.
pub fn declaration_table(roots: &Vec<vcd::ScopeItem>) -> (r: Result<DeclarationTable, DumpError>)
    ensures
        r is Err <==> has_root_var(roots@),
        r is Err ==> r->Err_0 == DumpError::RootNotScope,
        r is Ok ==> table_of(r->Ok_0, roots@),
{
    let mut entries: Vec<DeclarationEntry> = Vec::new();
    let mut skipped: Vec<String> = Vec::new();
    let mut i: usize = 0;
    while i < roots.len()
        invariant
            i <= roots.len(),
            !has_root_var(roots@.subrange(0, i as int)),
            entries.len() == declared_vars(roots@.subrange(0, i as int)).len(),
            forall|k: int|
                0 <= k < entries.len() ==> entry_of(
                    #[trigger] entries[k],
                    declared_vars(roots@.subrange(0, i as int))[k],
                ),
            skipped@.map_values(|s: String| s@) == skipped_scopes(roots@.subrange(0, i as int)),
        decreases roots.len() - i,
    {
        let ghost pre = roots@.subrange(0, i as int);
        let ghost cur = roots@.subrange(0, i + 1);
        assert(cur.drop_last() =~= pre);
        assert(cur.last() == roots@[i as int]);
        match &roots[i] {
            vcd::ScopeItem::Scope(s) => {
                let items = &s.items;
                let ghost base = declared_vars(pre);
                let ghost base_skipped = skipped_scopes(pre);
                let mut j: usize = 0;
                assert(scope_vars(items@.subrange(0, 0)) =~= seq![]);
                assert(base + scope_vars(items@.subrange(0, 0)) =~= base);
                assert(nested_scopes(items@.subrange(0, 0)) =~= seq![]);
                assert(base_skipped + nested_scopes(items@.subrange(0, 0)) =~= base_skipped);
                while j < items.len()
                    invariant
                        j <= items.len(),
                        items@ == s.items@,
                        entries.len() == (base + scope_vars(items@.subrange(0, j as int))).len(),
                        forall|k: int|
                            0 <= k < entries.len() ==> entry_of(
                                #[trigger] entries[k],
                                (base + scope_vars(items@.subrange(0, j as int)))[k],
                            ),
                        skipped@.map_values(|s: String| s@) == base_skipped + nested_scopes(
                            items@.subrange(0, j as int),
                        ),
                    decreases items.len() - j,
                {
                    let ghost ipre = items@.subrange(0, j as int);
                    let ghost icur = items@.subrange(0, j + 1);
                    assert(icur.drop_last() =~= ipre);
                    assert(icur.last() == items@[j as int]);
                    match &items[j] {
                        vcd::ScopeItem::Var(v) => {
                            let index = match &v.index {
                                Some(i) => Some(i.to_string()),
                                None => None,
                            };
                            let e = DeclarationEntry {
                                code: v.code.to_string(),
                                reference: v.reference.clone(),
                                var_type: v.var_type.to_string(),
                                size: v.size,
                                index,
                            };
                            entries.push(e);
                            assert(base + scope_vars(icur) =~= (base + scope_vars(ipre)).push(*v));
                        },
                        vcd::ScopeItem::Scope(n) => {
                            skipped.push(n.identifier.clone());
                            assert(scope_vars(icur) == scope_vars(ipre));
                            assert(base_skipped + nested_scopes(icur) =~= (base_skipped
                                + nested_scopes(ipre)).push(n.identifier@));
                        },
                        _ => {
                            assert(scope_vars(icur) == scope_vars(ipre));
                            assert(nested_scopes(icur) == nested_scopes(ipre));
                        },
                    }
                    j = j + 1;
                }
                assert(items@.subrange(0, j as int) =~= s.items@);
            },
            vcd::ScopeItem::Var(_) => {
                assert(has_root_var(roots@));
                return Err(DumpError::RootNotScope);
            },
            _ => {},
        }
        assert(!has_root_var(cur)) by {
            if has_root_var(cur) {
                let k = choose|k: int| 0 <= k < cur.len() && #[trigger] cur[k] matches vcd::ScopeItem::Var(_);
                if k < i {
                    assert(pre[k] == cur[k]);
                }
            }
        }
        i = i + 1;
    }
    assert(roots@.subrange(0, i as int) =~= roots@);
    Ok(DeclarationTable { entries, skipped })
}

} // verus!
