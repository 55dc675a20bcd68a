use vstd::prelude::*;
use super::{BackendCtor, Registry};

verus! {

/// Registers vLLM: an OpenAI-compatible client named `"vllm"`.
pub fn register_vllm(reg: &mut Registry)
    requires
        old(reg).wf(),
    ensures
        final(reg).wf(),
        final(reg)@ == old(reg)@.insert("vllm"@, "vllm"@),
{
    let ctor = BackendCtor { name: "vllm".to_owned() };
    reg.register("vllm", ctor);
}

} // verus!
