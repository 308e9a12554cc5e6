//! Nodes of the unresolved symbol tree: outside libraries, and workbenches as resolving
//! builds them from their definitions.

use vstd::prelude::*;

use crate::ast::WorkbenchKind;
use crate::ir;

verus! {

/// An outside library node of the unresolved tree (it carries nothing yet).
#[derive(Debug, Clone, Copy, PartialEq, Eq, Structural)]
pub struct External {}

/// An assignment to a building parameter inside an initializer.
#[derive(Debug, PartialEq, Eq)]
pub struct InitStatement {
    /// The parameter assigned.
    pub id: String,
    /// The value.
    pub expression: ir::Expression,
}

/// An initializer of a workbench: its parameters and the assignments it makes.
#[derive(Debug, PartialEq, Eq)]
pub struct Init {
    /// The parameters.
    pub parameters: Vec<ir::Parameter>,
    /// The assignments.
    pub statements: Vec<InitStatement>,
}

/// A statement of a workbench body.
#[derive(Debug, PartialEq, Eq)]
pub struct WorkbenchStatement {
    /// The name it declares, if any.
    pub id: Option<String>,
    /// Its value.
    pub expression: ir::Expression,
}

/// A workbench as resolving builds it: its kind, its initializers (the declared ones, then
/// the default one made of the building parameters) and its statements.
#[derive(Debug, PartialEq, Eq)]
pub struct Workbench {
    /// What the workbench builds.
    pub kind: WorkbenchKind,
    /// The initializers, the default one last.
    pub inits: Vec<Init>,
    /// The statements.
    pub statements: Vec<WorkbenchStatement>,
}

/// Builds the workbench of a definition: each declared initializer keeps its parameters,
/// in order, and a default initializer over the building parameters comes last.
///
/// Turning a building parameter into an assignment of the default initializer, an
/// initializer's statement or a workbench statement is not defined, so the definition may
/// hold none of them.
pub fn workbench_from_ir(wb: ir::Workbench) -> (r: Workbench)
    requires
        wb.signature.parameters@.len() == 0,
        forall|i: int| 0 <= i < wb.signature.inits@.len() ==> (#[trigger] wb.signature.inits@[i]).statements@.len() == 0,
        wb.statements@.len() == 0,
    ensures
        r.kind == wb.kind,
        r.inits@.len() == wb.signature.inits@.len() + 1,
        forall|i: int| 0 <= i < wb.signature.inits@.len() ==> (#[trigger] r.inits@[i]).parameters@
            == wb.signature.inits@[i].parameters@ && r.inits@[i].statements@.len() == 0,
        r.inits@.last().parameters@ == wb.signature.parameters@,
        r.inits@.last().statements@.len() == 0,
        r.statements@.len() == 0,
{
    let ir::Workbench { kind, signature, statements: _ } = wb;
    let ir::WorkbenchSignature { parameters, inits: mut declared } = signature;
    let ghost all = declared@;
    let mut inits: Vec<Init> = Vec::new();
    let n = declared.len();
    let mut k: usize = 0;
    while k < n
        invariant
            n == all.len(),
            k <= n,
            declared@ == all.subrange(k as int, n as int),
            inits@.len() == k,
            forall|i: int| 0 <= i < all.len() ==> (#[trigger] all[i]).statements@.len() == 0,
            forall|i: int| 0 <= i < k ==> (#[trigger] inits@[i]).parameters@ == all[i].parameters@
                && inits@[i].statements@.len() == 0,
        decreases n - k,
    {
        let init = declared.remove(0);
        assert(init == all[k as int]);
        inits.push(Init { parameters: init.parameters, statements: Vec::new() });
        k = k + 1;
    }
    inits.push(Init { parameters, statements: Vec::new() });
    Workbench { kind, inits, statements: Vec::new() }
}

} // verus!
