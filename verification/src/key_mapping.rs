//! Key bindings: from a key with modifiers to the commands it runs.

use vstd::prelude::*;

use std::collections::HashMap;

use crate::command::Command;

verus! {

broadcast use vstd::std_specs::hash::group_hash_axioms;

/// A key, by its keysym value.
#[derive(Clone, Copy, Debug, Eq, PartialEq, Structural)]
pub struct Key(pub u32);

/// A set of held modifiers, as a bit mask.
#[derive(Clone, Copy, Debug, Eq, PartialEq, Structural)]
pub struct Modifiers {
    pub bits: u8,
}

impl Modifiers {
    /// No modifier held.
    pub fn none() -> (r: Modifiers)
        ensures
            r.bits == 0,
    {
        Modifiers { bits: 0 }
    }

    /// The shift modifier alone.
    pub fn shift() -> (r: Modifiers)
        ensures
            r.bits == 1,
    {
        Modifiers { bits: 1 }
    }

    /// The control modifier alone.
    pub fn control() -> (r: Modifiers)
        ensures
            r.bits == 4,
    {
        Modifiers { bits: 4 }
    }
}

/// The number a key with modifiers is filed under.
pub open spec fn key_code(key: Key, modifiers: Modifiers) -> u64 {
    ((key.0 as u64) * 256 + modifiers.bits as u64) as u64
}

/// One binding: a key with modifiers, and the commands it runs.
pub struct KeyMapping {
    key: Key,
    modifiers: Modifiers,
    commands: Vec<Command>,
}

/// The model of one binding.
pub struct KeyMappingV {
    pub key: Key,
    pub modifiers: Modifiers,
    pub commands: Seq<Command>,
}

impl View for KeyMapping {
    type V = KeyMappingV;

    closed spec fn view(&self) -> KeyMappingV {
        KeyMappingV { key: self.key, modifiers: self.modifiers, commands: self.commands@ }
    }
}

impl KeyMapping {
    /// A binding of the given key and modifiers to the given commands.
    pub fn new(key: Key, modifiers: Modifiers, commands: Vec<Command>) -> (r: KeyMapping)
        ensures
            r@ == (KeyMappingV { key, modifiers, commands: commands@ }),
    {
        KeyMapping { key, modifiers, commands }
    }
}

/// The lookup table denoted by a list of bindings: each binding files its
/// commands under its key code, a later binding overriding an earlier one
/// for the same key and modifiers.
pub open spec fn table_of(ms: Seq<KeyMappingV>) -> Map<u64, Seq<Command>>
    decreases ms.len(),
{
    if ms.len() == 0 {
        Map::empty()
    } else {
        let last = ms[ms.len() - 1];
        table_of(ms.drop_last()).insert(key_code(last.key, last.modifiers), last.commands)
    }
}

/// Evaluates key presses against a fixed table of bindings.
#[derive(Debug)]
pub struct KeyMappingInterInterpreter {
    command_table: HashMap<u64, Vec<Command>>,
}

impl KeyMappingInterInterpreter {
    /// The commands filed under each key code.
    pub closed spec fn table(self) -> Map<u64, Seq<Command>> {
        self.command_table@.map_values(|v: Vec<Command>| v@)
    }

    /// An interpreter over the given bindings; a later binding overrides an
    /// earlier one for the same key and modifiers.
    pub fn new(key_mappings: Vec<KeyMapping>) -> (r: KeyMappingInterInterpreter)
        ensures
            r.table() == table_of(key_mappings@.map_values(|m: KeyMapping| m@)),
    {
        let ghost models = key_mappings@.map_values(|m: KeyMapping| m@);
        let mut command_table: HashMap<u64, Vec<Command>> = HashMap::new();
        let mut i: usize = 0;
        proof {
            assert(models.subrange(0, 0) =~= Seq::<KeyMappingV>::empty());
            assert(command_table@.map_values(|v: Vec<Command>| v@) =~= table_of(
                models.subrange(0, 0),
            ));
        }
        while i < key_mappings.len()
            invariant
                i <= key_mappings@.len(),
                models == key_mappings@.map_values(|m: KeyMapping| m@),
                models.len() == key_mappings@.len(),
                vstd::std_specs::hash::obeys_key_model::<u64>(),
                vstd::std_specs::hash::builds_valid_hashers::<std::hash::RandomState>(),
                command_table@.map_values(|v: Vec<Command>| v@) == table_of(
                    models.subrange(0, i as int),
                ),
            decreases key_mappings@.len() - i,
        {
            let m = &key_mappings[i];
            let commands = copy_commands(&m.commands);
            let code = (m.key.0 as u64) * 256 + (m.modifiers.bits as u64);
            command_table.insert(code, commands);
            proof {
                assert(models[i as int] == key_mappings@[i as int]@);
                let prefix = models.subrange(0, i as int + 1);
                assert(prefix.drop_last() =~= models.subrange(0, i as int));
                assert(prefix[prefix.len() - 1] == models[i as int]);
                assert(code == key_code(models[i as int].key, models[i as int].modifiers));
                assert(command_table@.map_values(|v: Vec<Command>| v@) =~= table_of(prefix));
            }
            i = i + 1;
        }
        proof {
            assert(models.subrange(0, models.len() as int) =~= models);
        }
        KeyMappingInterInterpreter { command_table }
    }

    /// The commands bound to the given key and modifiers; no binding yields
    /// no commands.
    pub fn eval(&self, key: Key, modifiers: Modifiers) -> (r: Vec<Command>)
        ensures
            ({
                let code = key_code(key, modifiers);
                if self.table().contains_key(code) {
                    r@ == self.table()[code]
                } else {
                    r@ == Seq::<Command>::empty()
                }
            }),
    {
        let code = (key.0 as u64) * 256 + (modifiers.bits as u64);
        match self.command_table.get(&code) {
            Some(v) => copy_commands(v),
            None => Vec::new(),
        }
    }
}

/// A copy of a command list.
fn copy_commands(v: &Vec<Command>) -> (r: Vec<Command>)
    ensures
        r@ == v@,
{
    let mut r: Vec<Command> = Vec::new();
    let mut i: usize = 0;
    while i < v.len()
        invariant
            i <= v@.len(),
            r@.len() == i,
            forall|j: int| 0 <= j < i ==> r@[j] == v@[j],
        decreases v@.len() - i,
    {
        r.push(v[i]);
        i = i + 1;
    }
    proof {
        assert(r@ =~= v@);
    }
    r
}

} // verus!
