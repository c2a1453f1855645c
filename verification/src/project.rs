//! The project scheduler: scripts, entities, and the two-level round-robin
//! over them.
//!
//! A script owns one process and a bounded FIFO of pending invocation
//! contexts; an entity owns its scripts and rotates among them after each
//! yield; the project owns the entities, keyed by stable opaque keys in a
//! slot map, and rotates among them the same way.  An entity that reports
//! plain progress keeps the processor; one that yields goes to the back of
//! the line.

use vstd::prelude::*;
use std::collections::VecDeque;
use crate::runtime::{RefPool, SymbolTable, Value, Entry, ExecError, find_entry, lookup_spec, lemma_find_entry_in_range};
use crate::bytecode::{ByteCode, Role, Hat, VarInit, ast_built, lemma_ast_built_grow, role_code, script_start};
use crate::process::{Process, StepType, step_rel};

verus! {

#[verifier::external_type_specification]
#[verifier::external_body]
pub struct ExDefaultKey(slotmap::DefaultKey);

/// The store of a project's entities, keyed by stable opaque keys.  Holds
/// a `slotmap::SlotMap` whose generic form Verus cannot declare directly.
#[verifier::external_body]
#[derive(Debug)]
pub struct EntityMap {
    inner: slotmap::SlotMap<slotmap::DefaultKey, Entity>,
}

/// What the entity map holds: its live keys and their entities.
pub uninterp spec fn entity_map_contents(m: EntityMap) -> Map<slotmap::DefaultKey, Entity>;

/// Relies on slotmap's `SlotMap::new`: a fresh map with no keys.
#[verifier::external_body]
pub fn entity_map_new() -> (r: EntityMap)
    ensures
        forall|k: slotmap::DefaultKey| !entity_map_contents(r).contains_key(k),
{
    EntityMap { inner: slotmap::SlotMap::new() }
}

/// Relies on slotmap's `SlotMap::insert`: stores the value under a key
/// distinct from every live key and hands that key back.  The slot map
/// aborts only when holding two to the thirty-second power live slots,
/// far beyond what one entity per sprite can reach.
#[verifier::external_body]
pub fn entity_map_insert(m: &mut EntityMap, e: Entity) -> (k: slotmap::DefaultKey)
    ensures
        !entity_map_contents(*old(m)).contains_key(k),
        entity_map_contents(*final(m)) == entity_map_contents(*old(m)).insert(k, e),
{
    m.inner.insert(e)
}

/// Relies on slotmap's `SlotMap::get_mut`: the entry of a live key, to be
/// read and written in place; `None` for a stale or foreign key, the map
/// untouched.
#[verifier::external_body]
pub fn entity_map_get_mut<'a>(m: &'a mut EntityMap, k: slotmap::DefaultKey) -> (r: Option<
    &'a mut Entity,
>)
    ensures
        entity_map_contents(*old(m)).contains_key(k) ==> (r matches Some(p) && *p
            == entity_map_contents(*old(m))[k] && entity_map_contents(*final(m))
            == entity_map_contents(*old(m)).insert(k, *final(p))),
        !entity_map_contents(*old(m)).contains_key(k) ==> (r is None && *final(m) == *old(m)),
{
    m.inner.get_mut(k)
}

/// One script: its hat event, its process, where its code starts, and the
/// FIFO of invocation contexts still waiting to run.
#[derive(Debug)]
pub struct Script {
    pub hat: Option<Hat>,
    pub process: Process,
    pub start_pos: usize,
    pub context_queue: VecDeque<SymbolTable>,
}

/// The effect of starting the oldest pending context on a process that
/// came to rest as `pm`: with nothing pending the process stays `pm`,
/// else it runs afresh from the script's entry on that context.
pub open spec fn consumed_from(s0: Script, pm: Process, s1: Script) -> bool {
    if s0.context_queue@.len() == 0 {
        s1.process == pm && s1.context_queue@ == s0.context_queue@
    } else {
        &&& s1.context_queue@ == s0.context_queue@.drop_first()
        &&& s1.process.running
        &&& s1.process.pc == s0.start_pos
        &&& s1.process.call_stack@.len() == 1
        &&& s1.process.call_stack@[0].locals == s0.context_queue@[0]
        &&& s1.process.call_stack@[0].saved_warp == 0
        &&& s1.process.warp_depth == 0
        &&& s1.process.value_stack@.len() == 0
        &&& s1.process.max_call_depth == pm.max_call_depth
    }
}

/// One script quantum, in terms of the process machine transition
/// [`step_rel`]: an idle script only yields; a running one is stepped
/// exactly once, plain progress and yields are passed through unchanged,
/// and termination or an error ends the invocation with a yield - after a
/// termination the next pending context is consumed, after an error the
/// queue is left parked.
pub open spec fn script_step_rel(
    s0: Script,
    pool0: RefPool,
    fs: SymbolTable,
    gs: SymbolTable,
    code: ByteCode,
    s1: Script,
    pool1: RefPool,
    r: StepType,
) -> bool {
    &&& s1.hat == s0.hat
    &&& s1.start_pos == s0.start_pos
    &&& if !s0.process.running {
        r == StepType::Yield && s1 == s0 && pool1 == pool0
    } else {
        exists|out: Result<StepType, ExecError>, pm: Process|
            step_rel(s0.process, code, pool0, fs, gs, pm, pool1, out) && match out {
                Ok(StepType::Normal) => r == StepType::Normal && s1.process == pm
                    && s1.context_queue@ == s0.context_queue@,
                Ok(StepType::Yield) => r == StepType::Yield && s1.process == pm
                    && s1.context_queue@ == s0.context_queue@,
                Ok(StepType::Terminate(_)) => r == StepType::Yield && consumed_from(s0, pm, s1),
                Ok(StepType::Idle) => false,
                Err(_) => r == StepType::Yield && s1.process == pm && s1.context_queue@
                    == s0.context_queue@,
            }
    }
}

impl Script {
    /// The script invariant: a sound process.  The context queue may hold
    /// pending invocations while the process is idle: a faulting process
    /// leaves its queue parked until the next event schedules the script.
    pub open spec fn inv(self) -> bool {
        self.process.inv()
    }

    /// When the process is idle and a context is pending, pops the oldest
    /// and starts the process on it at the script's entry.
    pub fn consume_context(&mut self)
        requires
            old(self).process.inv(),
        ensures
            final(self).hat == old(self).hat,
            final(self).start_pos == old(self).start_pos,
            final(self).process.inv(),
            final(self).process.max_call_depth == old(self).process.max_call_depth,
            old(self).process.running ==> *final(self) == *old(self),
            (!old(self).process.running && old(self).context_queue@.len() == 0) ==> (final(self).process == old(self).process && final(self).context_queue@ == old(self).context_queue@),
            (!old(self).process.running && old(self).context_queue@.len() > 0) ==> (final(self).context_queue@ == old(self).context_queue@.drop_first() && final(self).process.running && final(self).process.pc == old(self).start_pos && final(self).process.call_stack@.len() == 1 && final(self).process.call_stack@[0].locals == old(self).context_queue@[0] && final(self).process.call_stack@[0].saved_warp == 0 && final(self).process.warp_depth == 0 && final(self).process.value_stack@.len() == 0),
    {
        if !self.process.is_running() {
            if let Some(context) = self.context_queue.pop_front() {
                self.process.initialize(self.start_pos, context);
            }
        }
    }

    /// Appends a context and, if the process is idle, wakes it at once on
    /// the oldest pending context; at most `max_queue` contexts stay
    /// pending, the newest dropped on overflow - never the oldest: the
    /// first scheduled invocation is always the first served.  Counting
    /// the in-flight invocation inside the process, at most
    /// `max_queue + 1` invocations exist at any instant.
    pub fn schedule(&mut self, max_queue: usize, context: SymbolTable)
        requires
            old(self).process.inv(),
        ensures
            final(self).hat == old(self).hat,
            final(self).start_pos == old(self).start_pos,
            final(self).process.inv(),
            final(self).process.max_call_depth == old(self).process.max_call_depth,
            ({
                let q1 = old(self).context_queue@.push(context);
                let q2 = if !old(self).process.running {
                    q1.drop_first()
                } else {
                    q1
                };
                let q3 = if q2.len() > max_queue {
                    q2.drop_last()
                } else {
                    q2
                };
                final(self).context_queue@ == q3
            }),
            old(self).context_queue@.len() <= max_queue ==> final(self).context_queue@.len()
                <= max_queue,
            final(self).context_queue@.len() <= old(self).context_queue@.len() + 1,
            old(self).process.running ==> final(self).process == old(self).process,
            !old(self).process.running ==> (final(self).process.running && final(self).process.pc
                == old(self).start_pos && final(self).process.call_stack@.len() == 1 && final(self).process.call_stack@[0].locals == if old(self).context_queue@.len() > 0 {
                old(self).context_queue@[0]
            } else {
                context
            }),
    {
        self.context_queue.push_back(context);
        self.consume_context();
        if self.context_queue.len() > max_queue {
            self.context_queue.pop_back();
        }
        proof {
            let q1 = old(self).context_queue@.push(context);
            if !old(self).process.running && old(self).context_queue@.len() == 0 {
                assert(q1.drop_first() =~= Seq::<SymbolTable>::empty());
            }
        }
    }

    /// One quantum of this script: steps the process and, when it comes to
    /// rest by returning, consumes the next pending context.  Reports
    /// `Normal` to keep the processor or `Yield` to pass it on; termination
    /// and errors end the invocation and yield.  An error leaves the
    /// pending contexts in the queue untouched: they are not automatically
    /// re-run, and sit until the next event schedules the script.
    pub fn step(
        &mut self,
        code: &ByteCode,
        pool: &mut RefPool,
        fields: &mut SymbolTable,
        globals: &mut SymbolTable,
    ) -> (r: StepType)
        requires
            old(self).inv(),
        ensures
            final(self).inv(),
            final(self).hat == old(self).hat,
            final(self).start_pos == old(self).start_pos,
            final(self).process.max_call_depth == old(self).process.max_call_depth,
            r == StepType::Normal || r == StepType::Yield,
            r == StepType::Normal ==> final(self).process.running,
            !old(self).process.running ==> (r == StepType::Yield && *final(self) == *old(self)
                && *final(pool) == *old(pool)),
            *final(fields) == *old(fields),
            *final(globals) == *old(globals),
            script_step_rel(
                *old(self),
                *old(pool),
                *old(fields),
                *old(globals),
                *code,
                *final(self),
                *final(pool),
                r,
            ),
    {
        if !self.process.is_running() {
            return StepType::Yield;
        }
        let res = self.process.step(code, pool, fields, globals);
        let ghost pm = self.process;
        let ghost resg = res;
        match res {
            Ok(StepType::Normal) => StepType::Normal,
            Ok(StepType::Yield) => StepType::Yield,
            Ok(StepType::Terminate(_)) => {
                self.consume_context();
                proof {
                    assert(step_rel(
                        old(self).process,
                        *code,
                        *old(pool),
                        *old(fields),
                        *old(globals),
                        pm,
                        *pool,
                        resg,
                    ));
                    assert(consumed_from(*old(self), pm, *self));
                }
                StepType::Yield
            },
            Ok(StepType::Idle) => StepType::Yield,
            Err(_) => StepType::Yield,
        }
    }
}

/// What an entity is: the stage, an authored sprite, or a spawned copy.
#[derive(Clone, Copy, Debug, PartialEq, Eq, Structural)]
pub enum EntityKind {
    Stage,
    Original,
    Clone,
}

/// What an entity's scripts share: its fields and its kind.
#[derive(Debug)]
pub struct EntityContext {
    pub fields: SymbolTable,
    pub kind: EntityKind,
}

/// One entity: its context, its scripts, and the rotating cursor that
/// round-robins among them.
#[derive(Debug)]
pub struct Entity {
    pub context: EntityContext,
    pub scripts: Vec<Script>,
    pub script_queue_pos: usize,
}

/// One entity quantum, in terms of the script relation
/// [`script_step_rel`]: an entity without scripts only yields, touching
/// nothing; otherwise exactly the script under the cursor is stepped, its
/// report is returned unchanged, every other script is untouched, and the
/// cursor stays on plain progress or rotates on a yield.
pub open spec fn entity_step_rel(
    e0: Entity,
    pool0: RefPool,
    gs: SymbolTable,
    code: ByteCode,
    e1: Entity,
    pool1: RefPool,
    r: StepType,
) -> bool {
    &&& e1.context == e0.context
    &&& e1.scripts@.len() == e0.scripts@.len()
    &&& (r == StepType::Normal || r == StepType::Yield)
    &&& if e0.scripts@.len() == 0 {
        r == StepType::Yield && e1 == e0 && pool1 == pool0
    } else {
        let pos = e0.script_queue_pos as int;
        &&& script_step_rel(
            e0.scripts@[pos],
            pool0,
            e0.context.fields,
            gs,
            code,
            e1.scripts@[pos],
            pool1,
            r,
        )
        &&& (forall|j: int|
            0 <= j < e0.scripts@.len() && j != pos ==> e1.scripts@[j] == e0.scripts@[j])
        &&& e1.script_queue_pos == if r == StepType::Normal {
            e0.script_queue_pos as nat
        } else {
            next_pos(e0.script_queue_pos as nat, e0.scripts@.len())
        }
    }
}

impl Entity {
    /// The entity invariant: a cursor inside the script list (or an empty
    /// list), every script sound.
    pub open spec fn inv(self) -> bool {
        &&& (self.scripts@.len() == 0 || self.script_queue_pos < self.scripts@.len())
        &&& (forall|j: int| 0 <= j < self.scripts@.len() ==> (#[trigger] self.scripts@[j]).inv())
    }

    /// One quantum of this entity: steps the script under the cursor.  On
    /// `Normal` the same script keeps running; on `Yield` the cursor moves
    /// to the next script, modulo the count, so each ready script runs
    /// once before any runs twice.
    pub fn step(&mut self, code: &ByteCode, pool: &mut RefPool, globals: &mut SymbolTable) -> (r:
        StepType)
        requires
            old(self).inv(),
        ensures
            final(self).inv(),
            final(self).scripts@.len() == old(self).scripts@.len(),
            final(self).context.kind == old(self).context.kind,
            r == StepType::Normal || r == StepType::Yield,
            old(self).scripts@.len() == 0 ==> (r == StepType::Yield && *final(self) == *old(self)
                && *final(pool) == *old(pool) && *final(globals) == *old(globals)),
            *final(globals) == *old(globals),
            final(self).context == old(self).context,
            entity_step_rel(
                *old(self),
                *old(pool),
                *old(globals),
                *code,
                *final(self),
                *final(pool),
                r,
            ),
            (old(self).scripts@.len() > 0 && r == StepType::Normal) ==> final(self).script_queue_pos == old(self).script_queue_pos,
            (old(self).scripts@.len() > 0 && r == StepType::Yield) ==> final(self).script_queue_pos
                == next_pos(old(self).script_queue_pos as nat, old(self).scripts@.len()),
            forall|j: int|
                (0 <= j < old(self).scripts@.len() && j != old(self).script_queue_pos)
                    ==> #[trigger] final(self).scripts@[j] == old(self).scripts@[j],
            forall|j: int|
                0 <= j < old(self).scripts@.len() ==> (#[trigger] final(self).scripts@[j]).hat
                    == old(self).scripts@[j].hat && final(self).scripts@[j].start_pos == old(
                    self,
                ).scripts@[j].start_pos,
    {
        if self.scripts.len() == 0 {
            return StepType::Yield;
        }
        let pos = self.script_queue_pos;
        let s = &mut self.scripts[pos];
        let res = s.step(code, pool, &mut self.context.fields, globals);
        match res {
            StepType::Normal => {},
            _ => {
                self.script_queue_pos = if pos + 1 < self.scripts.len() {
                    pos + 1
                } else {
                    0
                };
            },
        }
        res
    }
}

/// The cursor after one yield: the next position, wrapping to the front.
pub open spec fn next_pos(pos: nat, n: nat) -> nat {
    if pos + 1 < n {
        pos + 1
    } else {
        0
    }
}

/// The cursor after `t` yields.
pub open spec fn pos_after(pos: nat, n: nat, t: nat) -> nat
    decreases t,
{
    if t == 0 {
        pos
    } else {
        next_pos(pos_after(pos, n, (t - 1) as nat), n)
    }
}

proof fn lemma_pos_after_closed(pos: nat, n: nat, t: nat)
    requires
        pos < n,
        t <= n,
    ensures
        pos_after(pos, n, t) == if pos + t < n {
            pos + t
        } else {
            (pos + t - n) as nat
        },
    decreases t,
{
    if t > 0 {
        lemma_pos_after_closed(pos, n, (t - 1) as nat);
    }
}

/// Round-robin fairness of the yield rotation: starting anywhere in a list
/// of `n` ready scripts, the `n` cursor positions reached by the next `n`
/// yields are pairwise distinct - every ready script runs exactly once
/// before the first runs again - and the cursor is back at the start after
/// exactly `n` yields.
pub proof fn lemma_round_robin(pos: nat, n: nat, t1: nat, t2: nat)
    requires
        pos < n,
        t1 < t2,
        t2 < n,
    ensures
        pos_after(pos, n, t1) != pos_after(pos, n, t2),
        pos_after(pos, n, n) == pos,
{
    lemma_pos_after_closed(pos, n, t1);
    lemma_pos_after_closed(pos, n, t2);
    lemma_pos_after_closed(pos, n, n);
}

/// Adding an entry keeps every defined name defined.
proof fn lemma_find_entry_push(entries: Seq<Entry>, e: Entry, name: Seq<char>)
    requires
        find_entry(entries, name) is Some,
    ensures
        find_entry(entries.push(e), name) is Some,
{
    let p = entries.push(e);
    if !(p.last().name@ == name) {
        assert(p.drop_last() =~= entries);
    }
}

/// Adding an entry of another name leaves a name's binding unchanged.
proof fn lemma_find_entry_push_other(entries: Seq<Entry>, e: Entry, name: Seq<char>)
    requires
        e.name@ != name,
    ensures
        lookup_spec(entries.push(e), name) == lookup_spec(entries, name),
{
    let p = entries.push(e);
    assert(p.last() == e);
    assert(p.drop_last() =~= entries);
    lemma_find_entry_in_range(entries, name);
}

/// No two of these initializers share a name.
pub open spec fn distinct_names(vars: Seq<VarInit>) -> bool {
    forall|i: int, j: int|
        0 <= i < j < vars.len() ==> (#[trigger] vars[i].name@) != (#[trigger] vars[j].name@)
}

/// The first `upto` initializers are all bound in the table, each to a
/// live cell holding a value built from its literal.
pub open spec fn table_built(
    vars: Seq<VarInit>,
    upto: int,
    entries: Seq<Entry>,
    pool: RefPool,
) -> bool {
    forall|t: int|
        0 <= t < upto ==> ({
            let c = lookup_spec(entries, vars[t].name@);
            &&& c is Some
            &&& c.unwrap() < pool.cells@.len()
            &&& ast_built(
                (#[trigger] vars[t]).value,
                pool.cells@[c.unwrap() as int],
                pool.lists@,
            )
        })
}

/// Values once built stay built as the pool grows, since the pool only
/// ever appends.
proof fn lemma_table_built_grow(
    vars: Seq<VarInit>,
    upto: int,
    entries: Seq<Entry>,
    p1: RefPool,
    p2: RefPool,
)
    requires
        table_built(vars, upto, entries, p1),
        p1.cells@.len() <= p2.cells@.len(),
        forall|i: int| 0 <= i < p1.cells@.len() ==> p2.cells@[i] == p1.cells@[i],
        p1.lists@.len() <= p2.lists@.len(),
        forall|i: int| 0 <= i < p1.lists@.len() ==> p2.lists@[i] == p1.lists@[i],
    ensures
        table_built(vars, upto, entries, p2),
{
    assert forall|t: int| 0 <= t < upto implies ({
        let c = lookup_spec(entries, vars[t].name@);
        &&& c is Some
        &&& c.unwrap() < p2.cells@.len()
        &&& ast_built((#[trigger] vars[t]).value, p2.cells@[c.unwrap() as int], p2.lists@)
    }) by {
        let c = lookup_spec(entries, vars[t].name@);
        lemma_ast_built_grow(vars[t].value, p1.cells@[c.unwrap() as int], p1.lists@, p2.lists@);
    }
}

/// An event posted to the project from outside.
#[derive(Clone, Copy, Debug, PartialEq, Eq, Structural)]
pub enum UserInput {
    /// The user clicked the start flag: every script with an `OnFlag` hat
    /// is scheduled once, with an empty context and no pending queue.
    ClickStart,
}

/// What every entity shares: the pool and the global variables.
#[derive(Debug)]
pub struct GlobalContext {
    pub ref_pool: RefPool,
    pub globals: SymbolTable,
}

/// A whole running program: the shared code, the pool and globals, the
/// entities under their stable keys, and the rotation queue that
/// round-robins among them.
#[derive(Debug)]
pub struct Project {
    pub context: GlobalContext,
    pub code: ByteCode,
    pub entities: EntityMap,
    pub entity_keys: Vec<slotmap::DefaultKey>,
    pub entity_queue: VecDeque<slotmap::DefaultKey>,
    pub max_call_depth: usize,
}

/// A script as construction leaves it: the given hat, the given entry,
/// idle, nothing pending, and the project's call-depth bound.
pub open spec fn fresh_script(s: Script, hat: Option<Hat>, start: nat, mcd: nat) -> bool {
    &&& s.hat == hat
    &&& s.start_pos == start
    &&& !s.process.running
    &&& s.context_queue@.len() == 0
    &&& s.process.max_call_depth == mcd
}

/// An entity as construction leaves it for sprite `i` of the role: the
/// stage kind for the first sprite, every authored field bound in its
/// table, and one fresh script per authored script, each starting where
/// the compiled code places it.
pub open spec fn built_entity(role: Role, i: int, e: Entity, mcd: nat) -> bool {
    &&& e.context.kind == if i == 0 {
        EntityKind::Stage
    } else {
        EntityKind::Original
    }
    &&& e.script_queue_pos == 0
    &&& forall|fq: int|
        0 <= fq < role.sprites@[i].fields@.len() ==> lookup_spec(
            e.context.fields.entries@,
            (#[trigger] role.sprites@[i].fields@[fq]).name@,
        ) is Some
    &&& e.scripts@.len() == role.sprites@[i].scripts@.len()
    &&& forall|j: int|
        0 <= j < e.scripts@.len() ==> fresh_script(
            #[trigger] e.scripts@[j],
            role.sprites@[i].scripts@[j].hat,
            script_start(role, i, j),
            mcd,
        )
}

/// What `ClickStart` does to one script: one with an `OnFlag` hat is
/// scheduled once with an empty context - an idle one starts running, on
/// the oldest parked context if any and otherwise on the fresh empty one,
/// while a running one keeps its state, the extra invocation overflowing
/// out at once; any other script is untouched.
pub open spec fn flag_scheduled(s0: Script, s1: Script) -> bool {
    &&& s1.hat == s0.hat
    &&& s1.start_pos == s0.start_pos
    &&& if s0.hat matches Some(Hat::OnFlag) {
        if s0.process.running {
            s1.process == s0.process && s1.context_queue@ == s0.context_queue@
        } else {
            &&& s1.process.running
            &&& s1.process.pc == s0.start_pos
            &&& s1.process.call_stack@.len() == 1
            &&& if s0.context_queue@.len() > 0 {
                s1.process.call_stack@[0].locals == s0.context_queue@[0]
                    && s1.context_queue@ == s0.context_queue@.drop_first()
            } else {
                s1.process.call_stack@[0].locals.entries@.len() == 0
                    && s1.context_queue@.len() == 0
            }
        }
    } else {
        s1 == s0
    }
}

/// What `ClickStart` does to one whole entity: its context and cursor are
/// kept, and each of its scripts stands in [`flag_scheduled`] to what it
/// was.
pub open spec fn flag_dispatched_entity(e0: Entity, e1: Entity) -> bool {
    &&& e1.context == e0.context
    &&& e1.script_queue_pos == e0.script_queue_pos
    &&& e1.scripts@.len() == e0.scripts@.len()
    &&& forall|j: int|
        0 <= j < e0.scripts@.len() ==> flag_scheduled(e0.scripts@[j], #[trigger] e1.scripts@[j])
}

/// Schedules every `OnFlag` script of one entity, strictly: an extra
/// invocation of an already-running script overflows out at once.
fn flag_dispatch_entity(e: &mut Entity)
    requires
        old(e).inv(),
    ensures
        final(e).inv(),
        final(e).context == old(e).context,
        final(e).script_queue_pos == old(e).script_queue_pos,
        final(e).scripts@.len() == old(e).scripts@.len(),
        forall|j: int|
            0 <= j < old(e).scripts@.len() ==> flag_scheduled(
                old(e).scripts@[j],
                #[trigger] final(e).scripts@[j],
            ),
{
    let mut j: usize = 0;
    while j < e.scripts.len()
        invariant
            j <= e.scripts@.len(),
            e.inv(),
            e.context == old(e).context,
            e.script_queue_pos == old(e).script_queue_pos,
            e.scripts@.len() == old(e).scripts@.len(),
            forall|t: int|
                0 <= t < j ==> flag_scheduled(old(e).scripts@[t], #[trigger] e.scripts@[t]),
            forall|t: int| j <= t < e.scripts@.len() ==> e.scripts@[t] == old(e).scripts@[t],
        decreases e.scripts@.len() - j,
    {
        let hat = e.scripts[j].hat;
        let is_flag = match hat {
            Some(Hat::OnFlag) => true,
            None => false,
        };
        proof {
            assert(hat == e.scripts@[j as int].hat);
            assert(is_flag == (e.scripts@[j as int].hat matches Some(Hat::OnFlag)));
        }
        if is_flag {
            let ctx = SymbolTable::new();
            let ghost ctxg = ctx;
            let s = &mut e.scripts[j];
            s.schedule(0, ctx);
            proof {
                let q0 = old(e).scripts@[j as int].context_queue@;
                assert(q0.push(ctxg).drop_last() =~= q0);
                if !old(e).scripts@[j as int].process.running {
                    if q0.len() == 0 {
                        assert(q0.push(ctxg).drop_first() =~= Seq::<SymbolTable>::empty());
                    } else {
                        assert(q0.push(ctxg).drop_first() =~= q0.drop_first().push(ctxg));
                        assert(q0.drop_first().push(ctxg).drop_last() =~= q0.drop_first());
                    }
                }
            }
        }
        proof {
            assert(flag_scheduled(old(e).scripts@[j as int], e.scripts@[j as int]));
        }
        j = j + 1;
    }
}

/// Schedules every `OnFlag` script of the entity under `k`, in place.
fn dispatch_key(m: &mut EntityMap, k: slotmap::DefaultKey)
    requires
        entity_map_contents(*old(m)).contains_key(k),
        entity_map_contents(*old(m))[k].inv(),
    ensures
        forall|k2: slotmap::DefaultKey| #[trigger]
            entity_map_contents(*final(m)).contains_key(k2) == entity_map_contents(
                *old(m),
            ).contains_key(k2),
        forall|k2: slotmap::DefaultKey|
            (entity_map_contents(*old(m)).contains_key(k2) && k2 != k)
                ==> #[trigger] entity_map_contents(*final(m))[k2] == entity_map_contents(
                *old(m),
            )[k2],
        entity_map_contents(*final(m))[k].inv(),
        flag_dispatched_entity(
            entity_map_contents(*old(m))[k],
            entity_map_contents(*final(m))[k],
        ),
{
    match entity_map_get_mut(m, k) {
        Some(e) => {
            flag_dispatch_entity(e);
        },
        None => {},
    }
}

impl Project {
    /// The project invariant: a positive call-depth bound; every created
    /// key live, no two alike; every entity sound; every queued key live.
    pub open spec fn inv(self) -> bool {
        &&& self.max_call_depth >= 1
        &&& forall|i: int|
            0 <= i < self.entity_keys@.len() ==> entity_map_contents(self.entities).contains_key(
                #[trigger] self.entity_keys@[i],
            )
        &&& forall|i: int, j: int|
            0 <= i < j < self.entity_keys@.len() ==> self.entity_keys@[i] != self.entity_keys@[j]
        &&& forall|k: slotmap::DefaultKey| #[trigger]
            entity_map_contents(self.entities).contains_key(k) ==> entity_map_contents(
                self.entities,
            )[k].inv()
        &&& forall|q: int|
            0 <= q < self.entity_queue@.len() ==> entity_map_contents(self.entities).contains_key(
                #[trigger] self.entity_queue@[q],
            )
    }

    /// Builds a project from a role: a fresh pool; globals from the role's
    /// global initializers; the role compiled once, to be shared by every
    /// process; one entity per sprite, the first as the stage, with one
    /// idle script per authored script at its compiled entry; and the
    /// entity rotation queue holding every entity in role order.
    ///
    /// A role with no sprites is allowed and yields a project with no
    /// entities, whose every step reports `Idle`.
    #[verifier::loop_isolation(false)]
    #[verifier::rlimit(60)]
    pub fn new(role: &Role, max_call_depth: usize) -> (r: Project)
        requires
            max_call_depth >= 1,
            role_code(*role).len() < usize::MAX,
        ensures
            r.inv(),
            r.max_call_depth == max_call_depth,
            r.code.code@ == role_code(*role),
            r.entity_keys@.len() == role.sprites@.len(),
            r.entity_queue@ == r.entity_keys@,
            forall|i: int|
                0 <= i < role.sprites@.len() ==> built_entity(
                    *role,
                    i,
                    entity_map_contents(r.entities)[#[trigger] r.entity_keys@[i]],
                    max_call_depth as nat,
                ),
            forall|g: int|
                0 <= g < role.globals@.len() ==> lookup_spec(
                    r.context.globals.entries@,
                    (#[trigger] role.globals@[g]).name@,
                ) is Some,
            distinct_names(role.globals@) ==> table_built(
                role.globals@,
                role.globals@.len() as int,
                r.context.globals.entries@,
                r.context.ref_pool,
            ),
            forall|i: int|
                0 <= i < role.sprites@.len() ==> (distinct_names(
                    (#[trigger] role.sprites@[i]).fields@,
                ) ==> table_built(
                    role.sprites@[i].fields@,
                    role.sprites@[i].fields@.len() as int,
                    entity_map_contents(r.entities)[r.entity_keys@[i]].context.fields.entries@,
                    r.context.ref_pool,
                )),
    {
        let mut ref_pool = RefPool::new();
        let mut globals = SymbolTable::new();
        let mut g: usize = 0;
        while g < role.globals.len()
            invariant
                g <= role.globals@.len(),
                forall|t: int|
                    0 <= t < g ==> lookup_spec(
                        globals.entries@,
                        (#[trigger] role.globals@[t]).name@,
                    ) is Some,
                distinct_names(role.globals@) ==> table_built(
                    role.globals@,
                    g as int,
                    globals.entries@,
                    ref_pool,
                ),
                forall|n: Seq<char>| #[trigger]
                    find_entry(globals.entries@, n) is Some ==> exists|t: int|
                        0 <= t < g && role.globals@[t].name@ == n,
            decreases role.globals@.len() - g,
        {
            let ghost pool0 = ref_pool;
            let v = Value::from_ast(&role.globals[g].value, &mut ref_pool);
            let c = ref_pool.alloc_cell(v);
            let ghost pool1 = ref_pool;
            let ghost entries0 = globals.entries@;
            let gname = role.globals[g].name.clone();
            proof {
                assert(gname == role.globals@[g as int].name);
            }
            let defined = globals.define(gname, c);
            proof {
                if defined {
                    assert forall|t: int| 0 <= t < g + 1 implies lookup_spec(
                        globals.entries@,
                        (#[trigger] role.globals@[t]).name@,
                    ) is Some by {
                        if t < g {
                            lemma_find_entry_push(
                                entries0,
                                globals.entries@.last(),
                                role.globals@[t].name@,
                            );
                        } else {
                            assert(globals.entries@.last().name@ == role.globals@[t].name@);
                        }
                    }
                }
                if distinct_names(role.globals@) {
                    if !defined {
                        let t = choose|t: int|
                            0 <= t < g && role.globals@[t].name@ == role.globals@[g as int].name@;
                        assert(false);
                    }
                    lemma_table_built_grow(role.globals@, g as int, entries0, pool0, pool1);
                    assert forall|t: int| 0 <= t < g + 1 implies ({
                        let cx = lookup_spec(globals.entries@, role.globals@[t].name@);
                        &&& cx is Some
                        &&& cx.unwrap() < ref_pool.cells@.len()
                        &&& ast_built(
                            (#[trigger] role.globals@[t]).value,
                            ref_pool.cells@[cx.unwrap() as int],
                            ref_pool.lists@,
                        )
                    }) by {
                        if t < g {
                            lemma_find_entry_push_other(
                                entries0,
                                globals.entries@.last(),
                                role.globals@[t].name@,
                            );
                        } else {
                            assert(globals.entries@.last() == Entry {
                                name: globals.entries@.last().name,
                                cell: c,
                            });
                            assert(find_entry(globals.entries@, role.globals@[t].name@) == Some(
                                entries0.len() as int,
                            ));
                            assert(ref_pool.cells@[c as int] == v);
                        }
                    }
                }
                assert forall|n: Seq<char>| #[trigger]
                    find_entry(globals.entries@, n) is Some implies exists|t: int|
                    0 <= t < g + 1 && role.globals@[t].name@ == n by {
                    if defined {
                        assert(globals.entries@ == entries0.push(
                            Entry { name: gname, cell: c },
                        ));
                        assert(globals.entries@.last().name == gname);
                        if globals.entries@.last().name@ == n {
                            assert(role.globals@[g as int].name@ == n);
                        } else {
                            assert(globals.entries@.drop_last() =~= entries0);
                            assert(find_entry(entries0, n) is Some);
                        }
                    } else {
                        assert(globals.entries@ == entries0);
                        assert(find_entry(entries0, n) is Some);
                    }
                }
            }
            g = g + 1;
        }
        let (code, locations) = ByteCode::compile(role);
        let mut entities = entity_map_new();
        let mut entity_keys: Vec<slotmap::DefaultKey> = Vec::new();
        let mut entity_queue: VecDeque<slotmap::DefaultKey> = VecDeque::new();
        let mut i: usize = 0;
        while i < role.sprites.len()
            invariant
                i <= role.sprites@.len(),
                distinct_names(role.globals@) ==> table_built(
                    role.globals@,
                    role.globals@.len() as int,
                    globals.entries@,
                    ref_pool,
                ),
                entity_keys@.len() == i,
                entity_queue@ == entity_keys@,
                forall|t: int, u: int|
                    0 <= t < u < entity_keys@.len() ==> entity_keys@[t] != entity_keys@[u],
                forall|t: int|
                    0 <= t < i ==> entity_map_contents(entities).contains_key(
                        #[trigger] entity_keys@[t],
                    ),
                forall|t: int|
                    0 <= t < i ==> built_entity(
                        *role,
                        t,
                        entity_map_contents(entities)[#[trigger] entity_keys@[t]],
                        max_call_depth as nat,
                    ),
                forall|k: slotmap::DefaultKey| #[trigger]
                    entity_map_contents(entities).contains_key(k) ==> (exists|t: int|
                        0 <= t < i && entity_keys@[t] == k),
                forall|k: slotmap::DefaultKey| #[trigger]
                    entity_map_contents(entities).contains_key(k) ==> entity_map_contents(
                        entities,
                    )[k].inv(),
                forall|t: int|
                    0 <= t < i ==> (distinct_names((#[trigger] role.sprites@[t]).fields@)
                        ==> table_built(
                        role.sprites@[t].fields@,
                        role.sprites@[t].fields@.len() as int,
                        entity_map_contents(entities)[entity_keys@[t]].context.fields.entries@,
                        ref_pool,
                    )),
            decreases role.sprites@.len() - i,
        {
            let mut fields = SymbolTable::new();
            let ghost fvars = role.sprites@[i as int].fields@;
            let mut f: usize = 0;
            while f < role.sprites[i].fields.len()
                invariant
                    i < role.sprites@.len(),
                    f <= fvars.len(),
                    fvars == role.sprites@[i as int].fields@,
                    forall|t: int|
                        0 <= t < f ==> lookup_spec(
                            fields.entries@,
                            (#[trigger] fvars[t]).name@,
                        ) is Some,
                    distinct_names(role.globals@) ==> table_built(
                        role.globals@,
                        role.globals@.len() as int,
                        globals.entries@,
                        ref_pool,
                    ),
                    distinct_names(fvars) ==> table_built(fvars, f as int, fields.entries@, ref_pool),
                    forall|n: Seq<char>| #[trigger]
                        find_entry(fields.entries@, n) is Some ==> exists|t: int|
                            0 <= t < f && fvars[t].name@ == n,
                    forall|t: int|
                        0 <= t < i ==> (distinct_names((#[trigger] role.sprites@[t]).fields@)
                            ==> table_built(
                            role.sprites@[t].fields@,
                            role.sprites@[t].fields@.len() as int,
                            entity_map_contents(entities)[entity_keys@[t]].context.fields.entries@,
                            ref_pool,
                        )),
                decreases fvars.len() - f,
            {
                let ghost pool_pre = ref_pool;
                let v = Value::from_ast(&role.sprites[i].fields[f].value, &mut ref_pool);
                let c = ref_pool.alloc_cell(v);
                let ghost pool1 = ref_pool;
                let ghost fentries0 = fields.entries@;
                let fname = role.sprites[i].fields[f].name.clone();
                proof {
                    assert(fname == fvars[f as int].name);
                }
                let fdefined = fields.define(fname, c);
                proof {
                    assert forall|t: int| 0 <= t < f + 1 implies lookup_spec(
                        fields.entries@,
                        (#[trigger] fvars[t]).name@,
                    ) is Some by {
                        if fdefined {
                            if t < f {
                                lemma_find_entry_push(
                                    fentries0,
                                    fields.entries@.last(),
                                    fvars[t].name@,
                                );
                            } else {
                                assert(fields.entries@.last().name@ == fvars[t].name@);
                            }
                        }
                    }
                    if distinct_names(role.globals@) {
                        lemma_table_built_grow(
                            role.globals@,
                            role.globals@.len() as int,
                            globals.entries@,
                            pool_pre,
                            ref_pool,
                        );
                    }
                    assert forall|t: int|
                        0 <= t < i implies (distinct_names((#[trigger] role.sprites@[t]).fields@)
                        ==> table_built(
                        role.sprites@[t].fields@,
                        role.sprites@[t].fields@.len() as int,
                        entity_map_contents(entities)[entity_keys@[t]].context.fields.entries@,
                        ref_pool,
                    )) by {
                        if distinct_names(role.sprites@[t].fields@) {
                            lemma_table_built_grow(
                                role.sprites@[t].fields@,
                                role.sprites@[t].fields@.len() as int,
                                entity_map_contents(entities)[entity_keys@[t]].context.fields.entries@,
                                pool_pre,
                                ref_pool,
                            );
                        }
                    }
                    if distinct_names(fvars) {
                        if !fdefined {
                            let t = choose|t: int|
                                0 <= t < f && fvars[t].name@ == fvars[f as int].name@;
                            assert(false);
                        }
                        lemma_table_built_grow(fvars, f as int, fentries0, pool_pre, pool1);
                        assert forall|t: int| 0 <= t < f + 1 implies ({
                            let cx = lookup_spec(fields.entries@, fvars[t].name@);
                            &&& cx is Some
                            &&& cx.unwrap() < ref_pool.cells@.len()
                            &&& ast_built(
                                (#[trigger] fvars[t]).value,
                                ref_pool.cells@[cx.unwrap() as int],
                                ref_pool.lists@,
                            )
                        }) by {
                            if t < f {
                                lemma_find_entry_push_other(
                                    fentries0,
                                    fields.entries@.last(),
                                    fvars[t].name@,
                                );
                            } else {
                                assert(fields.entries@ == fentries0.push(
                                    Entry { name: fname, cell: c },
                                ));
                                assert(fields.entries@.last().name == fname);
                                assert(find_entry(fields.entries@, fvars[t].name@) == Some(
                                    fentries0.len() as int,
                                ));
                                assert(ref_pool.cells@[c as int] == v);
                            }
                        }
                    }
                    assert forall|n: Seq<char>| #[trigger]
                        find_entry(fields.entries@, n) is Some implies exists|t: int|
                        0 <= t < f + 1 && fvars[t].name@ == n by {
                        if fdefined {
                            assert(fields.entries@ == fentries0.push(
                                Entry { name: fname, cell: c },
                            ));
                            assert(fields.entries@.last().name == fname);
                            if fields.entries@.last().name@ == n {
                                assert(fvars[f as int].name@ == n);
                            } else {
                                assert(fields.entries@.drop_last() =~= fentries0);
                                assert(find_entry(fentries0, n) is Some);
                            }
                        } else {
                            assert(fields.entries@ == fentries0);
                            assert(find_entry(fentries0, n) is Some);
                        }
                    }
                }
                f = f + 1;
            }
            proof {
                assert(fvars.subrange(0, fvars.len() as int) =~= fvars);
            }
            let mut scripts: Vec<Script> = Vec::new();
            let mut j: usize = 0;
            while j < role.sprites[i].scripts.len()
                invariant
                    i < role.sprites@.len(),
                    j <= role.sprites@[i as int].scripts@.len(),
                    scripts@.len() == j,
                    forall|t: int|
                        0 <= t < j ==> fresh_script(
                            #[trigger] scripts@[t],
                            role.sprites@[i as int].scripts@[t].hat,
                            script_start(*role, i as int, t),
                            max_call_depth as nat,
                        ),
                    forall|t: int| 0 <= t < j ==> (#[trigger] scripts@[t]).inv(),
                decreases role.sprites@[i as int].scripts@.len() - j,
            {
                scripts.push(
                    Script {
                        hat: role.sprites[i].scripts[j].hat,
                        process: Process::new(max_call_depth),
                        start_pos: locations.entities[i].scripts[j],
                        context_queue: VecDeque::new(),
                    },
                );
                j = j + 1;
            }
            let e = Entity {
                context: EntityContext {
                    fields,
                    kind: if i == 0 {
                        EntityKind::Stage
                    } else {
                        EntityKind::Original
                    },
                },
                scripts,
                script_queue_pos: 0,
            };
            let ghost keys0 = entity_keys@;
            let ghost m_pre = entity_map_contents(entities);
            let ghost eg = e;
            let k = entity_map_insert(&mut entities, e);
            entity_keys.push(k);
            entity_queue.push_back(k);
            proof {
                assert(entity_keys@ == keys0.push(k));
                assert(entity_queue@ =~= entity_keys@);
                assert(eg.inv());
                assert forall|k2: slotmap::DefaultKey| #[trigger] entity_map_contents(
                    entities,
                ).contains_key(k2) implies exists|t: int|
                    0 <= t < i + 1 && entity_keys@[t] == k2 by {
                    if k2 == k {
                        assert(entity_keys@[i as int] == k2);
                    } else {
                        assert(m_pre.contains_key(k2));
                        let t = choose|t: int| 0 <= t < i && keys0[t] == k2;
                        assert(entity_keys@[t] == k2);
                    }
                }
                assert forall|t: int, u: int|
                    0 <= t < u < entity_keys@.len() implies entity_keys@[t]
                    != entity_keys@[u] by {
                    if u == i {
                        assert(m_pre.contains_key(keys0[t]));
                    }
                }
                assert forall|t: int| 0 <= t < i + 1 implies built_entity(
                    *role,
                    t,
                    entity_map_contents(entities)[#[trigger] entity_keys@[t]],
                    max_call_depth as nat,
                ) by {
                    if t < i {
                        assert(m_pre.contains_key(keys0[t]));
                        assert(entity_keys@[t] != k);
                    }
                }
            }
            i = i + 1;
        }
        Project {
            context: GlobalContext { ref_pool, globals },
            code,
            entities,
            entity_keys,
            entity_queue,
            max_call_depth,
        }
    }

    /// Posts an external event.  `ClickStart` walks every entity ever
    /// created and applies [`dispatch_key`] to it, which schedules each of
    /// its scripts whose hat is `OnFlag`, strictly: an idle one starts at
    /// once with an empty context, and an extra invocation of a running one
    /// overflows out immediately (see [`flag_scheduled`]).  No other
    /// script, and nothing else of the project, is touched.
    #[verifier::loop_isolation(false)]
    pub fn input(&mut self, input: UserInput)
        requires
            old(self).inv(),
        ensures
            final(self).inv(),
            final(self).entity_keys@ == old(self).entity_keys@,
            final(self).entity_queue@ == old(self).entity_queue@,
            final(self).max_call_depth == old(self).max_call_depth,
            final(self).code == old(self).code,
            final(self).context == old(self).context,
            forall|k: slotmap::DefaultKey| #[trigger]
                entity_map_contents(final(self).entities).contains_key(k) == entity_map_contents(
                    old(self).entities,
                ).contains_key(k),
            forall|t: int|
                0 <= t < old(self).entity_keys@.len() ==> flag_dispatched_entity(
                    entity_map_contents(old(self).entities)[#[trigger] old(self).entity_keys@[t]],
                    entity_map_contents(final(self).entities)[old(self).entity_keys@[t]],
                ),
    {
        match input {
            UserInput::ClickStart => {
                let mut i: usize = 0;
                while i < self.entity_keys.len()
                    invariant
                        i <= self.entity_keys@.len(),
                        self.entity_keys@ == old(self).entity_keys@,
                        self.entity_queue@ == old(self).entity_queue@,
                        self.max_call_depth == old(self).max_call_depth,
                        self.code == old(self).code,
                        self.context == old(self).context,
                        forall|k: slotmap::DefaultKey| #[trigger]
                            entity_map_contents(self.entities).contains_key(k)
                                == entity_map_contents(old(self).entities).contains_key(k),
                        forall|k: slotmap::DefaultKey| #[trigger]
                            entity_map_contents(self.entities).contains_key(k)
                                ==> entity_map_contents(self.entities)[k].inv(),
                        forall|t: int|
                            i <= t < old(self).entity_keys@.len() ==> entity_map_contents(
                                self.entities,
                            )[#[trigger] old(self).entity_keys@[t]] == entity_map_contents(
                                old(self).entities,
                            )[old(self).entity_keys@[t]],
                        forall|t: int|
                            0 <= t < i ==> flag_dispatched_entity(
                                entity_map_contents(old(self).entities)[#[trigger] old(
                                    self,
                                ).entity_keys@[t]],
                                entity_map_contents(self.entities)[old(self).entity_keys@[t]],
                            ),
                    decreases self.entity_keys@.len() - i,
                {
                    let k = self.entity_keys[i];
                    let ghost m_cur = entity_map_contents(self.entities);
                    proof {
                        assert(entity_map_contents(old(self).entities).contains_key(
                            old(self).entity_keys@[i as int],
                        ));
                        assert(entity_map_contents(self.entities).contains_key(k));
                        assert(entity_map_contents(self.entities)[k].inv());
                    }
                    dispatch_key(&mut self.entities, k);
                    proof {
                        let m_new = entity_map_contents(self.entities);
                        assert forall|t: int|
                            i + 1 <= t < old(self).entity_keys@.len() implies m_new[#[trigger] old(
                            self,
                        ).entity_keys@[t]] == entity_map_contents(old(self).entities)[old(
                            self,
                        ).entity_keys@[t]] by {
                            assert(old(self).entity_keys@[t] != old(
                                self,
                            ).entity_keys@[i as int]);
                            assert(m_cur.contains_key(old(self).entity_keys@[t]));
                            assert(m_new[old(self).entity_keys@[t]] == m_cur[old(
                                self,
                            ).entity_keys@[t]]);
                        }
                        assert forall|t: int| 0 <= t < i + 1 implies flag_dispatched_entity(
                            entity_map_contents(old(self).entities)[#[trigger] old(
                                self,
                            ).entity_keys@[t]],
                            m_new[old(self).entity_keys@[t]],
                        ) by {
                            if t < i {
                                assert(old(self).entity_keys@[t] != old(
                                    self,
                                ).entity_keys@[i as int]);
                                assert(m_cur.contains_key(old(self).entity_keys@[t]));
                                assert(m_new[old(self).entity_keys@[t]] == m_cur[old(
                                    self,
                                ).entity_keys@[t]]);
                            } else {
                                assert(k == old(self).entity_keys@[i as int]);
                                assert(m_cur[k] == entity_map_contents(old(self).entities)[k]);
                                assert(flag_dispatched_entity(m_cur[k], m_new[k]));
                            }
                        }
                    }
                    i = i + 1;
                }
            },
        }
    }

    /// One quantum of the whole project: pops the front entity, steps it,
    /// and requeues it - at the front if it made plain progress (it keeps
    /// the processor), at the back if it yielded (cooperative round-robin
    /// across entities).  With no entity queued there is no work and the
    /// step reports `Idle`.
    pub fn step(&mut self) -> (r: StepType)
        requires
            old(self).inv(),
        ensures
            final(self).inv(),
            final(self).entity_keys@ == old(self).entity_keys@,
            final(self).max_call_depth == old(self).max_call_depth,
            final(self).code == old(self).code,
            final(self).context.globals == old(self).context.globals,
            r == StepType::Idle || r == StepType::Normal || r == StepType::Yield,
            (r == StepType::Idle) <==> old(self).entity_queue@.len() == 0,
            r == StepType::Idle ==> (final(self).entity_queue@ == old(self).entity_queue@
                && final(self).entities == old(self).entities && final(self).context == old(
                self,
            ).context),
            r == StepType::Normal ==> final(self).entity_queue@ == old(self).entity_queue@,
            r == StepType::Yield ==> final(self).entity_queue@ == old(
                self,
            ).entity_queue@.drop_first().push(old(self).entity_queue@[0]),
            old(self).entity_queue@.len() > 0 ==> ({
                let k = old(self).entity_queue@[0];
                let e0 = entity_map_contents(old(self).entities)[k];
                let e1 = entity_map_contents(final(self).entities)[k];
                &&& entity_map_contents(final(self).entities) == entity_map_contents(
                    old(self).entities,
                ).insert(k, e1)
                &&& entity_step_rel(
                    e0,
                    old(self).context.ref_pool,
                    old(self).context.globals,
                    old(self).code,
                    e1,
                    final(self).context.ref_pool,
                    r,
                )
            }),
    {
        let ghost q0 = self.entity_queue@;
        let k = match self.entity_queue.pop_front() {
            None => { return StepType::Idle },
            Some(k) => k,
        };
        proof {
            assert(k == q0[0]);
            assert(entity_map_contents(self.entities).contains_key(q0[0]));
        }
        // entities are never destroyed here, so a popped key always
        // resolves; with destruction this would be a pruning loop
        match entity_map_get_mut(&mut self.entities, k) {
            Some(e) => {
                let res = e.step(&self.code, &mut self.context.ref_pool, &mut self.context.globals);
                match res {
                    StepType::Normal => {
                        self.entity_queue.push_front(k);
                        proof {
                            assert(self.entity_queue@ =~= q0);
                        }
                        StepType::Normal
                    },
                    _ => {
                        self.entity_queue.push_back(k);
                        StepType::Yield
                    },
                }
            },
            None => StepType::Idle,
        }
    }
}

} // verus!
