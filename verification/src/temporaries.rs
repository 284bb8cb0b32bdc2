//! The variables that lowering makes for values no declaration names.

use vstd::prelude::*;

use crate::ir::{FnId, Span, StorageClass, TypeId, VarId};
use crate::merge_vars;
use crate::merge_vars::TempKind;
use crate::program::Variable;
use crate::text;
use crate::text::{append, chars_of, decimal_chars, string_of};

verus! {

pub open spec fn prefix_of(kind: TempKind) -> Seq<char> {
    match kind {
        TempKind::Gep => "_gep"@,
        TempKind::Load => "_load"@,
        TempKind::Ret => "_ret"@,
        TempKind::Recv => "_recv"@,
    }
}

/// The name of a temporary: its kind and its number.
pub fn temp_name(kind: TempKind, id: VarId) -> (r: String)
    ensures
        r@ == prefix_of(kind) + text::decimal(id.0 as nat),
{
    let mut out = match kind {
        TempKind::Gep => chars_of("_gep"),
        TempKind::Load => chars_of("_load"),
        TempKind::Ret => chars_of("_ret"),
        TempKind::Recv => chars_of("_recv"),
    };
    append(&mut out, &decimal_chars(id.0));
    string_of(&out)
}

/// The variable of a temporary. It holds an address or what one yields, so it
/// is a pointer.
pub fn temp_variable(
    kind: TempKind,
    id: VarId,
    owner: Option<FnId>,
    span: Span,
    type_id: TypeId,
) -> (r: Variable)
    ensures
        r.id == id,
        r.name@ == prefix_of(kind) + text::decimal(id.0 as nat),
        r.type_id == type_id,
        r.storage == StorageClass::Local,
        r.fn_id == owner,
        r.span == span,
        r.is_pointer,
        r.param_index is None && r.symbol is None && r.target is None,
        !r.is_defined && !r.is_weak && !r.is_namespaced,
{
    Variable {
        id,
        name: temp_name(kind, id),
        type_id,
        storage: StorageClass::Local,
        fn_id: owner,
        param_index: None,
        span,
        is_pointer: true,
        is_defined: false,
        is_weak: false,
        is_namespaced: false,
        symbol: None,
        target: None,
    }
}

proof fn lemma_decimal_digits(n: nat)
    ensures
        text::decimal(n).len() > 0,
        forall|i: int| 0 <= i < text::decimal(n).len() ==> '0' <= #[trigger] text::decimal(n)[i] <= '9',
    decreases n,
{
    if n >= 10 {
        lemma_decimal_digits(n / 10);
    }
}

/// A temporary's name tells its kind, whatever its number: a body lowered
/// again numbers its temporaries otherwise, and they are still told apart.
pub proof fn law_names_tell_the_kind(kind: TempKind, n: u32)
    ensures
        merge_vars::temp_kind(prefix_of(kind) + text::decimal(n as nat)) == Some(kind),
{
    reveal_strlit("_gep");
    reveal_strlit("_load");
    reveal_strlit("_ret");
    reveal_strlit("_recv");
    let digits = text::decimal(n as nat);
    let name = prefix_of(kind) + digits;
    lemma_decimal_digits(n as nat);
    assert(name.skip(prefix_of(kind).len() as int) =~= digits);
    assert(name.take(prefix_of(kind).len() as int) =~= prefix_of(kind));
    assert(text::starts_with(name, prefix_of(kind)));
    if kind == TempKind::Load {
        assert(name[1] == 'l');
        assert(!text::starts_with(name, "_gep"@));
    } else if kind == TempKind::Ret {
        assert(name[1] == 'r' && name[3] == 't');
        assert(!text::starts_with(name, "_gep"@));
        assert(!text::starts_with(name, "_load"@));
    } else if kind == TempKind::Recv {
        assert(name[1] == 'r' && name[3] == 'c');
        assert(!text::starts_with(name, "_gep"@));
        assert(!text::starts_with(name, "_load"@));
        assert(!text::starts_with(name, "_ret"@));
    }
}

} // verus!
