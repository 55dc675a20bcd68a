use vstd::prelude::*;
use super::{BackendCtor, Registry};

verus! {

/// Registers SGLang: an OpenAI-compatible client named `"sglang"`.
pub fn register_sglang(reg: &mut Registry)
    requires
        old(reg).wf(),
    ensures
        final(reg).wf(),
        final(reg)@ == old(reg)@.insert("sglang"@, "sglang"@),
{
    let ctor = BackendCtor { name: "sglang".to_owned() };
    reg.register("sglang", ctor);
}

} // verus!
