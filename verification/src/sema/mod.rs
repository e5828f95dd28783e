//! Semantic analysis: name resolution, type checking and validation.

pub mod error;
pub mod types;

pub use error::SemaError;
pub use types::Ty;
pub mod scope;
pub mod eval;

pub use eval::{ConstEval, ConstValue};
pub mod resolve;
pub mod resolution;
pub mod check;
pub mod typing;
pub mod validate;
pub mod laws;

use vstd::prelude::*;
use crate::ast::item::SourceFile;
use crate::sema::scope::SymbolTable;
use crate::sema::resolve::Resolver;
use crate::sema::check::TypeChecker;
use crate::sema::error::{errors_view, ErrorView};
use crate::sema::resolve::{item_name, ScopeMap};
use crate::sema::typing::{items_errors, law_checking_depends_on_views};
use crate::sema::resolution::resolved;
use crate::sema::error::lemma_errors_view_append;

verus! {

/// Run name resolution, then type checking, on a parsed file.
///
/// Returns the symbol table that resolution built, and the errors of
/// resolution followed by those of type checking: the table and the
/// resolution errors are those of resolving the items from the start (see
/// [`resolved`]), every name that a top-level item declares is declared in
/// the root scope (unless the table is full), and the errors after those of
/// resolution are the type-checking errors of the file for the module
/// scopes that resolution recorded. Those are the errors that checking the
/// file gives with any table and scope map that resolution could have
/// built: checking sees only their views.
pub fn analyze(file: &SourceFile) -> (r: (SymbolTable, Vec<SemaError>))
    ensures
        r.0.wf(),
        r.0@ == resolved(file.items@).table,
        forall|j: int|
            0 <= j < file.items@.len() && #[trigger] item_name(file.items@[j]) is Some ==> (r.0.symbols_view().len()
                < u32::MAX ==> r.0.local_spec(0, item_name(file.items@[j])->0) is Some),
        exists|m: ScopeMap|
            #![trigger items_errors(r.0, m, 0, file.items@)]
            m.entries_view() == resolved(file.items@).map && errors_view(r.1@) == resolved(file.items@).errors
                + items_errors(r.0, m, 0, file.items@),
        forall|t: SymbolTable, m: ScopeMap|
            t.wf() && t@ == resolved(file.items@).table && m.entries_view() == resolved(file.items@).map ==> errors_view(
                r.1@,
            ) == resolved(file.items@).errors + #[trigger] items_errors(t, m, 0, file.items@),
{
    let mut resolver = Resolver::new();
    resolver.collect_declarations(file);
    let (table, scope_map, resolve_errors) = resolver.finish();
    let mut errors: Vec<SemaError> = resolve_errors;
    let ghost resolution = errors@;
    let mut checker = TypeChecker::new(&table, &scope_map);
    checker.check_file(file);
    let mut check_errors = checker.into_errors();
    let ghost checked = check_errors@;
    errors.append(&mut check_errors);
    proof {
        assert(errors@ =~= resolution + checked);
        lemma_errors_view_append(resolution, checked);
        assert(errors_view(Seq::<SemaError>::empty()) =~= Seq::<ErrorView>::empty());
        assert(errors_view(checked) =~= items_errors(table, scope_map, 0, file.items@));
    }
    let ghost t = table;
    let ghost m = scope_map;
    let result = (table, errors);
    proof {
        assert forall|t2: SymbolTable, m2: ScopeMap|
            t2.wf() && t2@ == resolved(file.items@).table && m2.entries_view() == resolved(file.items@).map implies errors_view(
                result.1@,
            ) == resolved(file.items@).errors + #[trigger] items_errors(t2, m2, 0, file.items@) by {
            law_checking_depends_on_views(t, m, t2, m2, file.items@);
        }
        assert(result.0 == t);
        assert(m.entries_view() == resolved(file.items@).map && errors_view(result.1@) == resolved(file.items@).errors
            + items_errors(result.0, m, 0, file.items@));
    }
    result
}

} // verus!
