//! Encoding the calls that a client submits to the two chains.
use vstd::prelude::*;

use core::marker::PhantomData;

use crate::dispatch::BlockNumber;
use crate::multidao::Identifier;
use crate::scale::{
    encode_client_update, encode_packet_delivery, encode_u128, le_bytes, scale_encode_client_update,
    scale_encode_packet_delivery,
};

verus! {

/// The module of the MultiDAO chain that receives packets and headers.
pub const IBC_MODULE: &'static str = "MultiDAO";

/// The module of the DOT chain that locks transfers in escrow.
pub const DOT_MODULE: &'static str = "TemplateModule";

/// A runtime whose MultiDAO module takes packets and headers.
pub trait Ibc {}

/// A runtime whose escrow module takes transfers to the other chain.
pub trait Dot {}

/// The node runtime that the client talks to.
pub struct NodeRuntime;

impl Ibc for NodeRuntime {}

impl Dot for NodeRuntime {}

/// An encoded call, ready to be put into an extrinsic.
pub struct Encoded(pub Vec<u8>);

/// A lookup in the chain's metadata that found nothing.
#[derive(Debug, PartialEq, Eq)]
pub enum MetadataError {
    ModuleNotFound(String),
    CallNotFound(&'static str),
}

/// What the metadata says of one module: its index and its calls, each with
/// its name and index.
#[derive(Clone, Debug)]
pub struct ModuleMetadata {
    pub index: u8,
    pub name: String,
    pub calls: Vec<(String, u8)>,
}

/// The metadata of a chain: its modules.
#[derive(Clone, Debug)]
pub struct Metadata {
    pub modules: Vec<ModuleMetadata>,
}

/// The index of the first call named `name`.
pub open spec fn call_index_of(calls: Seq<(String, u8)>, name: Seq<char>) -> Option<u8>
    decreases calls.len(),
{
    if calls.len() == 0 {
        None
    } else if calls[0].0@ == name {
        Some(calls[0].1)
    } else {
        call_index_of(calls.drop_first(), name)
    }
}

/// The position of the first module named `name`.
pub open spec fn module_position(modules: Seq<ModuleMetadata>, name: Seq<char>) -> Option<int>
    decreases modules.len(),
{
    if modules.len() == 0 {
        None
    } else if modules[0].name@ == name {
        Some(0)
    } else {
        match module_position(modules.drop_first(), name) {
            Some(i) => Some(i + 1),
            None => None,
        }
    }
}

/// The module lookup finds the first module with the requested name, and
/// finds none only where no module has that name.
pub proof fn module_lookup_finds_first_by_name(modules: Seq<ModuleMetadata>, name: Seq<char>)
    ensures
        match module_position(modules, name) {
            Some(i) => 0 <= i < modules.len() && modules[i].name@ == name && forall|j: int|
                0 <= j < i ==> (#[trigger] modules[j]).name@ != name,
            None => forall|j: int| 0 <= j < modules.len() ==> (#[trigger] modules[j]).name@ != name,
        },
    decreases modules.len(),
{
    if modules.len() > 0 {
        let rest = modules.drop_first();
        module_lookup_finds_first_by_name(rest, name);
        if modules[0].name@ != name {
            assert forall|j: int| 0 < j < modules.len() implies modules[j] == rest[j - 1] by {}
        }
    }
}

/// The call index lookup gives the index of the first call with the
/// requested name, and gives none only where no call has that name.
pub proof fn call_lookup_finds_first_by_name(calls: Seq<(String, u8)>, name: Seq<char>)
    ensures
        match call_index_of(calls, name) {
            Some(c) => exists|i: int|
                0 <= i < calls.len() && calls[i].0@ == name && calls[i].1 == c && forall|j: int|
                    0 <= j < i ==> (#[trigger] calls[j]).0@ != name,
            None => forall|j: int| 0 <= j < calls.len() ==> (#[trigger] calls[j]).0@ != name,
        },
    decreases calls.len(),
{
    if calls.len() > 0 {
        let rest = calls.drop_first();
        call_lookup_finds_first_by_name(rest, name);
        if calls[0].0@ != name {
            assert forall|j: int| 0 < j < calls.len() implies calls[j] == rest[j - 1] by {}
            if let Some(c) = call_index_of(rest, name) {
                let i = choose|i: int|
                    0 <= i < rest.len() && rest[i].0@ == name && rest[i].1 == c && forall|j: int|
                        0 <= j < i ==> (#[trigger] rest[j]).0@ != name;
                assert(calls[i + 1] == rest[i]);
                assert forall|j: int| 0 <= j < i + 1 implies (#[trigger] calls[j]).0@ != name by {
                    if j > 0 {
                        assert(calls[j] == rest[j - 1]);
                    }
                }
            }
        } else {
            assert(calls[0] == calls[0]);
        }
    }
}

/// The layout of an encoded call: module index, call index, then the encoded arguments.
pub open spec fn call_bytes(module_index: u8, call_index: u8, params: Seq<u8>) -> Seq<u8> {
    seq![module_index, call_index] + params
}

impl Metadata {
    /// Where the first module named `name` stands.
    fn position(&self, name: &str) -> (r: Option<usize>)
        ensures
            match r {
                Some(i) => module_position(self.modules@, name@) == Some(i as int) && i < self.modules@.len(),
                None => module_position(self.modules@, name@) is None,
            },
    {
        let wanted = String::from_str(name);
        let mut i: usize = 0;
        proof {
            assert(self.modules@.skip(0) =~= self.modules@);
        }
        while i < self.modules.len()
            invariant
                i <= self.modules@.len(),
                wanted@ == name@,
                module_position(self.modules@, name@) == match module_position(self.modules@.skip(i as int), name@) {
                    Some(j) => Some(j + i),
                    None => None::<int>,
                },
            decreases self.modules@.len() - i,
        {
            proof {
                assert(self.modules@.skip(i as int)[0] == self.modules@[i as int]);
                assert(self.modules@.skip(i as int).drop_first() =~= self.modules@.skip(i + 1));
                lemma_module_position_bound(self.modules@.skip(i + 1), name@);
            }
            if self.modules[i].name == wanted {
                return Some(i);
            }
            i = i + 1;
        }
        None
    }

    /// The first module named `name`.
    pub fn module(&self, name: &str) -> (r: Result<&ModuleMetadata, MetadataError>)
        ensures
            match module_position(self.modules@, name@) {
                Some(i) => r matches Ok(m) && *m == self.modules@[i],
                None => r matches Err(e) && e matches MetadataError::ModuleNotFound(n) && n@ == name@,
            },
            r matches Ok(m) ==> m.name@ == name@,
            r is Err ==> forall|j: int| 0 <= j < self.modules@.len() ==> (#[trigger] self.modules@[j]).name@ != name@,
    {
        proof {
            module_lookup_finds_first_by_name(self.modules@, name@);
        }
        match self.position(name) {
            Some(i) => Ok(&self.modules[i]),
            None => Err(MetadataError::ModuleNotFound(String::from_str(name))),
        }
    }

    /// The calls of the first module named `name`, as a call is built from them.
    pub fn module_calls<T>(self, name: &str) -> (r: Result<ModuleCalls<T>, MetadataError>)
        ensures
            match module_position(self.modules@, name@) {
                Some(i) => r matches Ok(c) && c.module == self.modules@[i],
                None => r matches Err(e) && e matches MetadataError::ModuleNotFound(n) && n@ == name@,
            },
            r matches Ok(c) ==> c.module.name@ == name@,
            r is Err ==> forall|j: int| 0 <= j < self.modules@.len() ==> (#[trigger] self.modules@[j]).name@ != name@,
    {
        proof {
            module_lookup_finds_first_by_name(self.modules@, name@);
        }
        match self.position(name) {
            Some(i) => {
                let mut modules = self.modules;
                let module = modules.swap_remove(i);
                Ok(ModuleCalls::new(module))
            },
            None => Err(MetadataError::ModuleNotFound(String::from_str(name))),
        }
    }
}

proof fn lemma_module_position_bound(modules: Seq<ModuleMetadata>, name: Seq<char>)
    ensures
        module_position(modules, name) matches Some(i) ==> 0 <= i < modules.len(),
    decreases modules.len(),
{
    if modules.len() > 0 {
        lemma_module_position_bound(modules.drop_first(), name);
    }
}

impl ModuleMetadata {
    /// The index of the call named `function`.
    pub fn call_index(&self, function: &'static str) -> (r: Result<u8, MetadataError>)
        ensures
            match call_index_of(self.calls@, function@) {
                Some(c) => r == Ok::<u8, MetadataError>(c),
                None => r == Err::<u8, MetadataError>(MetadataError::CallNotFound(function)),
            },
    {
        let wanted = String::from_str(function);
        let mut i: usize = 0;
        proof {
            assert(self.calls@.skip(0) =~= self.calls@);
        }
        while i < self.calls.len()
            invariant
                i <= self.calls@.len(),
                wanted@ == function@,
                call_index_of(self.calls@, function@) == call_index_of(self.calls@.skip(i as int), function@),
            decreases self.calls@.len() - i,
        {
            proof {
                assert(self.calls@.skip(i as int)[0] == self.calls@[i as int]);
                assert(self.calls@.skip(i as int).drop_first() =~= self.calls@.skip(i + 1));
            }
            if self.calls[i].0 == wanted {
                return Ok(self.calls[i].1);
            }
            i = i + 1;
        }
        Err(MetadataError::CallNotFound(function))
    }

    /// The call named `function` with its arguments already encoded as `params`:
    /// the module index, the call index, then `params`.
    pub fn call(&self, function: &'static str, params: Vec<u8>) -> (r: Result<Encoded, MetadataError>)
        ensures
            match call_index_of(self.calls@, function@) {
                Some(c) => r matches Ok(e) && e.0@ == call_bytes(self.index, c, params@),
                None => r matches Err(e) && e == MetadataError::CallNotFound(function),
            },
    {
        let call_index = self.call_index(function)?;
        let mut bytes: Vec<u8> = Vec::new();
        bytes.push(self.index);
        bytes.push(call_index);
        let mut params = params;
        let ghost p = params@;
        bytes.append(&mut params);
        proof {
            assert(bytes@ =~= call_bytes(self.index, call_index, p));
        }
        Ok(Encoded(bytes))
    }
}

/// The calls of one module of a runtime.
pub struct ModuleCalls<T> {
    pub module: ModuleMetadata,
    pub marker: PhantomData<T>,
}

impl<T> ModuleCalls<T> {
    pub fn new(module: ModuleMetadata) -> (c: Self)
        ensures
            c.module == module,
    {
        ModuleCalls { module, marker: PhantomData }
    }
}

impl<T: Ibc> ModuleCalls<T> {
    /// A `update_client(id, header)` call.
    pub fn update_client(self, id: Identifier, header: Vec<u8>) -> (r: Result<Encoded, MetadataError>)
        requires
            call_index_of(self.module.calls@, "update_client"@) is Some ==> header@.len() <= u32::MAX,
        ensures
            match call_index_of(self.module.calls@, "update_client"@) {
                Some(c) => r matches Ok(e) && e.0@ == call_bytes(
                    self.module.index,
                    c,
                    scale_encode_client_update(id, header@),
                ),
                None => r matches Err(e) && e == MetadataError::CallNotFound("update_client"),
            },
    {
        self.module.call_index("update_client")?;
        let params = encode_client_update(id, &header);
        self.module.call("update_client", params)
    }

    /// A `recv_packet(packet, proof, proof_height)` call.
    pub fn recv_packet(self, packet: Vec<u8>, proof: Vec<Vec<u8>>, proof_height: BlockNumber) -> (r: Result<
        Encoded,
        MetadataError,
    >)
        requires
            call_index_of(self.module.calls@, "recv_packet"@) is Some ==> {
                &&& packet@.len() <= u32::MAX
                &&& proof@.len() <= u32::MAX
                &&& forall|i: int| 0 <= i < proof@.len() ==> (#[trigger] proof@[i])@.len() <= u32::MAX
            },
        ensures
            match call_index_of(self.module.calls@, "recv_packet"@) {
                Some(c) => r matches Ok(e) && e.0@ == call_bytes(
                    self.module.index,
                    c,
                    scale_encode_packet_delivery(packet@, proof.deep_view(), proof_height),
                ),
                None => r matches Err(e) && e == MetadataError::CallNotFound("recv_packet"),
            },
    {
        self.module.call_index("recv_packet")?;
        let params = encode_packet_delivery(&packet, &proof, proof_height);
        self.module.call("recv_packet", params)
    }
}

impl<T: Dot> ModuleCalls<T> {
    /// A `transfer_dot(amount)` call; the amount is encoded as its sixteen little-endian bytes.
    pub fn transfer_dot(self, amount: u128) -> (r: Result<Encoded, MetadataError>)
        ensures
            match call_index_of(self.module.calls@, "transfer_dot"@) {
                Some(c) => r matches Ok(e) && e.0@ == call_bytes(self.module.index, c, le_bytes(amount as nat, 16)),
                None => r matches Err(e) && e == MetadataError::CallNotFound("transfer_dot"),
            },
    {
        let params = encode_u128(amount);
        self.module.call("transfer_dot", params)
    }
}

} // verus!
