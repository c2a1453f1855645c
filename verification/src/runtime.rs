//! The value system: dynamically typed runtime values, the handle-addressed
//! pool that owns list cells, shared variable cells and closure records, and
//! the ordered name-to-cell symbol tables.
//!
//! Lists live in the pool and values carry plain handles, so lists may
//! contain themselves or each other; the pool keeps every cell alive for its
//! own lifetime, which makes cyclic structures safe and keeps their identity
//! stable.  A symbol table entry names a pool cell, not a value: several
//! names (captured closures, passed aliases) may share one cell, and a write
//! through any of them is seen through all.

use vstd::prelude::*;
use crate::num::{eq_bits, parse_bits, trim_of, fmt_bits, is_nan_bits, is_finite_bits, num_eq, num_parse, num_to_text, str_trim};

verus! {

broadcast use vstd::std_specs::vec::axiom_spec_len;

/// The variant tag of a runtime value.
#[derive(Clone, Copy, Debug, PartialEq, Eq, Structural)]
pub enum ValueType {
    Bool,
    Number,
    Text,
    List,
    Closure,
}

/// A dynamically typed runtime value.  Numbers are IEEE-754 doubles carried
/// as their 64-bit patterns; lists and closures are handles into a
/// [`RefPool`].
#[derive(Debug, PartialEq)]
pub enum Value {
    Bool(bool),
    Number(u64),
    Text(String),
    List(usize),
    Closure(usize),
}

/// The identity tag of a value: for lists and closures the pool cell
/// address, for scalars a tag derived from the value itself, so that a list
/// reached through any number of round-trips keeps one identity.  The
/// scalar tag is exact - bit for bit on numbers, character for character on
/// text - so it partitions scalars more finely than value equality, which
/// identifies the two zeros and ignores letter case.
#[derive(Debug, PartialEq)]
pub enum Identity {
    Bool(bool),
    Number(u64),
    Text(String),
    List(usize),
    Closure(usize),
}

pub open spec fn identity_of(v: Value) -> Identity {
    match v {
        Value::Bool(b) => Identity::Bool(b),
        Value::Number(n) => Identity::Number(n),
        Value::Text(s) => Identity::Text(s),
        Value::List(h) => Identity::List(h),
        Value::Closure(h) => Identity::Closure(h),
    }
}

pub open spec fn type_of(v: Value) -> ValueType {
    match v {
        Value::Bool(_) => ValueType::Bool,
        Value::Number(_) => ValueType::Number,
        Value::Text(_) => ValueType::Text,
        Value::List(_) => ValueType::List,
        Value::Closure(_) => ValueType::Closure,
    }
}

impl Value {
    /// The variant tag of this value.
    pub fn get_type(&self) -> (r: ValueType)
        ensures
            r == type_of(*self),
    {
        match self {
            Value::Bool(_) => ValueType::Bool,
            Value::Number(_) => ValueType::Number,
            Value::Text(_) => ValueType::Text,
            Value::List(_) => ValueType::List,
            Value::Closure(_) => ValueType::Closure,
        }
    }

    /// The identity tag of this value.  Two list values are identity-equal
    /// exactly when they are the same pool cell.
    pub fn identity(&self) -> (r: Identity)
        ensures
            r == identity_of(*self),
    {
        match self {
            Value::Bool(b) => Identity::Bool(*b),
            Value::Number(n) => Identity::Number(*n),
            Value::Text(s) => Identity::Text(s.clone()),
            Value::List(h) => Identity::List(*h),
            Value::Closure(h) => Identity::Closure(*h),
        }
    }
}

/// An exact copy of a value (handles are copied, not the cells they name).
pub fn dup_value(v: &Value) -> (r: Value)
    ensures
        r == *v,
{
    match v {
        Value::Bool(b) => Value::Bool(*b),
        Value::Number(n) => Value::Number(*n),
        Value::Text(s) => Value::Text(s.clone()),
        Value::List(h) => Value::List(*h),
        Value::Closure(h) => Value::Closure(*h),
    }
}

/// An exact copy of a vector of names.
pub fn dup_strings(v: &Vec<String>) -> (r: Vec<String>)
    ensures
        r@ == v@,
{
    let mut out: Vec<String> = Vec::new();
    let mut i: usize = 0;
    while i < v.len()
        invariant
            i <= v@.len(),
            out@ == v@.subrange(0, i as int),
        decreases v@.len() - i,
    {
        out.push(v[i].clone());
        proof {
            assert(out@ =~= v@.subrange(0, i as int + 1));
        }
        i = i + 1;
    }
    proof {
        assert(out@ =~= v@);
    }
    out
}

/// The error taxonomy of the interpreter.  Any of these aborts the process
/// that raised it; the project and its other scripts go on unharmed.
#[derive(Debug, PartialEq)]
pub enum ExecError {
    /// A primitive received an operand it cannot coerce.
    TypeMismatch { expected: ValueType, got: ValueType },
    /// A list index outside `1 ..= len` (the surface is 1-indexed).
    IndexOutOfRange { len: usize, index: i64 },
    /// Raised only by primitives that disallow an infinite or NaN result;
    /// ordinary arithmetic returns those values instead.
    DivideByZero,
    /// A name missed in every scope, from the innermost frame to globals.
    UndefinedVariable { name: String },
    /// A call would push past the configured call-stack bound.
    CallDepthExceeded { limit: usize },
    /// A compiler/interpreter mismatch: a jump or handle led nowhere.
    InvalidOpcode,
    /// A user-level error surfaced by a primitive.
    Custom { message: String },
}

/// One entry of a symbol table: a name bound to a pool cell.
#[derive(Debug)]
pub struct Entry {
    pub name: String,
    pub cell: usize,
}

/// An ordered mapping from names to shared cells.  `define` refuses a name
/// already present; `redefine_or_define` rebinds the newest entry of that
/// name.  The newest binding of a name wins at lookup.
#[derive(Debug)]
pub struct SymbolTable {
    pub entries: Vec<Entry>,
}

/// The index of the newest entry with this name, if any.
pub open spec fn find_entry(entries: Seq<Entry>, name: Seq<char>) -> Option<int>
    decreases entries.len(),
{
    if entries.len() == 0 {
        None
    } else if entries.last().name@ == name {
        Some(entries.len() - 1)
    } else {
        find_entry(entries.drop_last(), name)
    }
}

/// The table after rebinding the newest entry of `name` to `cell`, or
/// defining it anew.
pub open spec fn redefine_spec(entries: Seq<Entry>, name: String, cell: usize) -> Seq<Entry> {
    match find_entry(entries, name@) {
        Some(i) => entries.update(i, Entry { name: name, cell: cell }),
        None => entries.push(Entry { name: name, cell: cell }),
    }
}

/// The cell the newest binding of this name designates, if any.
pub open spec fn lookup_spec(entries: Seq<Entry>, name: Seq<char>) -> Option<usize> {
    match find_entry(entries, name) {
        Some(i) => Some(entries[i].cell),
        None => None,
    }
}

pub proof fn lemma_find_entry_in_range(entries: Seq<Entry>, name: Seq<char>)
    ensures
        match find_entry(entries, name) {
            Some(i) => 0 <= i < entries.len() && entries[i].name@ == name,
            None => true,
        },
    decreases entries.len(),
{
    if entries.len() > 0 && !(entries.last().name@ == name) {
        lemma_find_entry_in_range(entries.drop_last(), name);
    }
}

/// Updating the entry that `find_entry` designates with one of the same
/// name leaves it the one designated.
proof fn lemma_find_entry_update(entries: Seq<Entry>, i: int, e2: Entry, name: Seq<char>)
    requires
        0 <= i < entries.len(),
        find_entry(entries, name) == Some(i),
        e2.name@ == name,
    ensures
        find_entry(entries.update(i, e2), name) == Some(i),
    decreases entries.len(),
{
    let u = entries.update(i, e2);
    if i == entries.len() - 1 {
        assert(u.last() == e2);
    } else {
        assert(entries.last().name@ != name);
        assert(u.last() == entries.last());
        assert(u.drop_last() =~= entries.drop_last().update(i, e2));
        lemma_find_entry_update(entries.drop_last(), i, e2, name);
    }
}

impl SymbolTable {
    /// An empty table.
    pub fn new() -> (r: Self)
        ensures
            r.entries@.len() == 0,
    {
        SymbolTable { entries: Vec::new() }
    }

    /// The position of the newest entry of `name`, if any.
    fn find_index(&self, name: &String) -> (r: Option<usize>)
        ensures
            (r is Some) == (find_entry(self.entries@, name@) is Some),
            r matches Some(ri) ==> find_entry(self.entries@, name@) == Some(ri as int),
    {
        proof {
            assert(self.entries@.subrange(0, self.entries@.len() as int) =~= self.entries@);
        }
        let mut i: usize = self.entries.len();
        while i > 0
            invariant
                i <= self.entries@.len(),
                find_entry(self.entries@, name@) == find_entry(
                    self.entries@.subrange(0, i as int),
                    name@,
                ),
            decreases i,
        {
            if self.entries[i - 1].name.eq(name) {
                proof {
                    let pre = self.entries@.subrange(0, i as int);
                    assert(pre.last() == self.entries@[i - 1]);
                    assert(find_entry(pre, name@) == Some(i - 1));
                }
                return Some(i - 1);
            }
            proof {
                let pre = self.entries@.subrange(0, i as int);
                assert(pre.last() == self.entries@[i - 1]);
                assert(pre.drop_last() =~= self.entries@.subrange(0, i as int - 1));
            }
            i = i - 1;
        }
        proof {
            assert(self.entries@.subrange(0, 0) =~= Seq::<Entry>::empty());
        }
        None
    }

    /// The cell bound to `name`, newest binding first.
    pub fn lookup(&self, name: &String) -> (r: Option<usize>)
        ensures
            r == lookup_spec(self.entries@, name@),
    {
        proof {
            lemma_find_entry_in_range(self.entries@, name@);
        }
        match self.find_index(name) {
            Some(i) => Some(self.entries[i].cell),
            None => None,
        }
    }

    /// Binds `name` to `cell`; refuses (and changes nothing) when the name
    /// is already defined.
    pub fn define(&mut self, name: String, cell: usize) -> (r: bool)
        ensures
            r == (lookup_spec(old(self).entries@, name@) is None),
            r ==> final(self).entries@ == old(self).entries@.push(
                Entry { name: name, cell: cell },
            ),
            !r ==> final(self).entries@ == old(self).entries@,
    {
        if self.lookup(&name).is_some() {
            false
        } else {
            self.entries.push(Entry { name, cell });
            true
        }
    }

    /// Rebinds the newest entry of `name` to `cell`, or defines it anew.
    pub fn redefine_or_define(&mut self, name: String, cell: usize)
        ensures
            final(self).entries@ == redefine_spec(old(self).entries@, name, cell),
            lookup_spec(final(self).entries@, name@) == Some(cell),
    {
        let ghost entries0 = self.entries@;
        proof {
            lemma_find_entry_in_range(entries0, name@);
        }
        match self.find_index(&name) {
            Some(i) => {
                let e = &mut self.entries[i];
                *e = Entry { name, cell };
                proof {
                    assert(self.entries@ == entries0.update(i as int, self.entries@[i as int]));
                    assert(self.entries@[i as int].name@ == name@);
                    lemma_find_entry_update(entries0, i as int, self.entries@[i as int], name@);
                }
            },
            None => {
                self.entries.push(Entry { name, cell });
                proof {
                    assert(self.entries@.last() == Entry { name: name, cell: cell });
                    assert(find_entry(self.entries@, name@) == Some(entries0.len() as int));
                }
            },
        }
    }

    /// An exact copy of this table; the copy names the same cells, so the
    /// two tables alias every binding.
    pub fn duplicate(&self) -> (r: Self)
        ensures
            r.entries@ == self.entries@,
    {
        let mut out: Vec<Entry> = Vec::new();
        let mut i: usize = 0;
        while i < self.entries.len()
            invariant
                i <= self.entries@.len(),
                out@ == self.entries@.subrange(0, i as int),
            decreases self.entries@.len() - i,
        {
            out.push(Entry { name: self.entries[i].name.clone(), cell: self.entries[i].cell });
            proof {
                assert(out@ =~= self.entries@.subrange(0, i as int + 1));
            }
            i = i + 1;
        }
        proof {
            assert(out@ =~= self.entries@);
        }
        SymbolTable { entries: out }
    }
}

impl Default for SymbolTable {
    fn default() -> (r: Self)
        ensures
            r.entries@.len() == 0,
    {
        SymbolTable { entries: Vec::new() }
    }
}

/// A closure record: an entry point, parameter names, and the captured
/// cells.  The captures are a symbol table naming the very cells of the
/// scope the closure was made in, not copies of their values.
#[derive(Debug)]
pub struct Closure {
    pub entry: usize,
    pub params: Vec<String>,
    pub captures: SymbolTable,
}

/// The pool that owns every list cell, variable cell and closure record.
/// Values and tables carry plain handles into it.  Cells live as long as
/// the pool, so self-referential lists stay reachable and keep one
/// identity; reclamation is deferred to dropping the whole pool.
#[derive(Debug)]
pub struct RefPool {
    pub lists: Vec<Vec<Value>>,
    pub cells: Vec<Value>,
    pub closures: Vec<Closure>,
}

impl RefPool {
    /// An empty pool.
    pub fn new() -> (r: Self)
        ensures
            r.lists@.len() == 0,
            r.cells@.len() == 0,
            r.closures@.len() == 0,
    {
        RefPool { lists: Vec::new(), cells: Vec::new(), closures: Vec::new() }
    }

    /// Allocates a fresh list cell holding `elems` and hands back its
    /// handle.
    pub fn alloc_list(&mut self, elems: Vec<Value>) -> (h: usize)
        ensures
            h == old(self).lists@.len(),
            final(self).lists@ == old(self).lists@.push(elems),
            final(self).cells@ == old(self).cells@,
            final(self).closures@ == old(self).closures@,
    {
        let h = self.lists.len();
        self.lists.push(elems);
        h
    }

    /// The length of the list behind `h`; `None` on a dead handle.  An
    /// empty list has length 0.
    pub fn list_len(&self, h: usize) -> (r: Option<usize>)
        ensures
            r matches Some(n) ==> h < self.lists@.len() && n == self.lists@[h as int]@.len(),
            (r is None) <==> h >= self.lists@.len(),
    {
        if h < self.lists.len() {
            Some(self.lists[h].len())
        } else {
            None
        }
    }

    /// The element at 0-based position `i` of the list behind `h`.
    pub fn list_get(&self, h: usize, i: usize) -> (r: Option<Value>)
        ensures
            r == if h < self.lists@.len() && i < self.lists@[h as int]@.len() {
                Some(self.lists@[h as int]@[i as int])
            } else {
                None::<Value>
            },
    {
        if h < self.lists.len() && i < self.lists[h].len() {
            Some(dup_value(&self.lists[h][i]))
        } else {
            None
        }
    }

    /// Overwrites 0-based position `i` of the list behind `h`; reports
    /// whether the handle and index were live.
    pub fn list_set(&mut self, h: usize, i: usize, v: Value) -> (r: bool)
        ensures
            r == (h < old(self).lists@.len() && i < old(self).lists@[h as int]@.len()),
            final(self).lists@.len() == old(self).lists@.len(),
            r ==> final(self).lists@[h as int]@ == old(self).lists@[h as int]@.update(
                i as int,
                v,
            ),
            forall|j: int|
                0 <= j < old(self).lists@.len() && (!r || j != h) ==> final(self).lists@[j]
                    == old(self).lists@[j],
            final(self).cells@ == old(self).cells@,
            final(self).closures@ == old(self).closures@,
    {
        if h < self.lists.len() && i < self.lists[h].len() {
            let lst = &mut self.lists[h];
            let slot = &mut lst[i];
            *slot = v;
            true
        } else {
            false
        }
    }

    /// Appends `v` to the list behind `h`; reports whether the handle was
    /// live.
    pub fn list_push(&mut self, h: usize, v: Value) -> (r: bool)
        ensures
            r == (h < old(self).lists@.len()),
            final(self).lists@.len() == old(self).lists@.len(),
            r ==> final(self).lists@[h as int]@ == old(self).lists@[h as int]@.push(v),
            forall|j: int|
                0 <= j < old(self).lists@.len() && (!r || j != h) ==> final(self).lists@[j]
                    == old(self).lists@[j],
            final(self).cells@ == old(self).cells@,
            final(self).closures@ == old(self).closures@,
    {
        if h < self.lists.len() {
            let lst = &mut self.lists[h];
            lst.push(v);
            true
        } else {
            false
        }
    }

    /// Allocates a fresh variable cell holding `v`.
    pub fn alloc_cell(&mut self, v: Value) -> (h: usize)
        ensures
            h == old(self).cells@.len(),
            final(self).cells@ == old(self).cells@.push(v),
            final(self).lists@ == old(self).lists@,
            final(self).closures@ == old(self).closures@,
    {
        let h = self.cells.len();
        self.cells.push(v);
        h
    }

    /// The value in cell `h`; `None` on a dead handle.
    pub fn read_cell(&self, h: usize) -> (r: Option<Value>)
        ensures
            r == if h < self.cells@.len() {
                Some(self.cells@[h as int])
            } else {
                None::<Value>
            },
    {
        if h < self.cells.len() {
            Some(dup_value(&self.cells[h]))
        } else {
            None
        }
    }

    /// Overwrites cell `h` with `v`; every name aliasing the cell sees the
    /// new value at once.  Reports whether the handle was live.
    pub fn write_cell(&mut self, h: usize, v: Value) -> (r: bool)
        ensures
            r == (h < old(self).cells@.len()),
            r ==> final(self).cells@ == old(self).cells@.update(h as int, v),
            !r ==> final(self).cells@ == old(self).cells@,
            final(self).lists@ == old(self).lists@,
            final(self).closures@ == old(self).closures@,
    {
        if h < self.cells.len() {
            let c = &mut self.cells[h];
            *c = v;
            true
        } else {
            false
        }
    }

    /// Allocates a closure record.
    pub fn alloc_closure(&mut self, c: Closure) -> (h: usize)
        ensures
            h == old(self).closures@.len(),
            final(self).closures@ == old(self).closures@.push(c),
            final(self).lists@ == old(self).lists@,
            final(self).cells@ == old(self).cells@,
    {
        let h = self.closures.len();
        self.closures.push(c);
        h
    }
}

impl Default for RefPool {
    fn default() -> (r: Self)
        ensures
            r.lists@.len() == 0,
            r.cells@.len() == 0,
            r.closures@.len() == 0,
    {
        RefPool::new()
    }
}

impl Value {
    /// Builds a fresh list from the given elements.
    pub fn from_vec(elements: Vec<Value>, pool: &mut RefPool) -> (r: Value)
        ensures
            r == Value::List(old(pool).lists@.len() as usize),
            final(pool).lists@ == old(pool).lists@.push(elements),
            final(pool).cells@ == old(pool).cells@,
            final(pool).closures@ == old(pool).closures@,
    {
        let h = pool.alloc_list(elements);
        Value::List(h)
    }

    /// Builds a text value.  Texts are held inline and need no pool cell.
    pub fn from_string(text: String) -> (r: Value)
        ensures
            r == Value::Text(text),
    {
        Value::Text(text)
    }
}

pub uninterp spec fn lower_of(s: Seq<char>) -> Seq<char>;

/// Relies on `str::to_lowercase`: the lowercase form depends on the
/// characters alone; an empty string stays empty.
#[verifier::external_body]
pub fn str_lower(s: &str) -> (r: String)
    ensures
        r@ == lower_of(s@),
        s@.len() == 0 ==> r@.len() == 0,
{
    s.to_lowercase()
}

/// Structural equality of two values that are not both lists: bools and
/// closure handles by identity, numbers by IEEE-754 equality, texts without
/// regard to case.
pub open spec fn shallow_eq_spec(a: Value, b: Value) -> bool {
    match (a, b) {
        (Value::Bool(x), Value::Bool(y)) => x == y,
        (Value::Number(x), Value::Number(y)) => eq_bits(x, y),
        (Value::Text(x), Value::Text(y)) => lower_of(x@) == lower_of(y@),
        (Value::Closure(x), Value::Closure(y)) => x == y,
        _ => false,
    }
}

/// What structural equality yields, mirroring [`values_equal`]: `None`
/// stands for the give-up cases (no fuel left, or a dead handle), where
/// the executable comparison reports an error.
pub open spec fn values_equal_spec(a: Value, b: Value, lists: Seq<Vec<Value>>, fuel: nat) -> Option<
    bool,
>
    decreases fuel, 1int, 0int,
{
    if fuel == 0 {
        None
    } else {
        match (a, b) {
            (Value::List(x), Value::List(y)) => {
                if x == y {
                    Some(true)
                } else if x >= lists.len() || y >= lists.len() {
                    None
                } else if lists[x as int]@.len() != lists[y as int]@.len() {
                    Some(false)
                } else {
                    elems_equal_spec(x as int, y as int, 0, lists, fuel)
                }
            },
            _ => Some(shallow_eq_spec(a, b)),
        }
    }
}

/// Elementwise equality of two live lists from position `i` on, each pair
/// compared with one unit less fuel.
pub open spec fn elems_equal_spec(x: int, y: int, i: int, lists: Seq<Vec<Value>>, fuel: nat) -> Option<
    bool,
>
    decreases fuel, 0int, lists[x]@.len() - i,
{
    if 0 <= x < lists.len() && 0 <= y < lists.len() && fuel > 0 {
        if i >= lists[x]@.len() {
            Some(true)
        } else {
            match values_equal_spec(lists[x]@[i], lists[y]@[i], lists, (fuel - 1) as nat) {
                None => None,
                Some(false) => Some(false),
                Some(true) => elems_equal_spec(x, y, i + 1, lists, fuel),
            }
        }
    } else {
        None
    }
}

/// Structural value equality: scalars as [`shallow_eq_spec`] says, text
/// comparison case-insensitive, lists element by element (one list equals
/// itself outright).  `fuel` bounds the nesting walked; comparing
/// structures nested deeper - in particular cyclic lists that are not the
/// very same cell - gives an error rather than running forever.  The whole
/// outcome is fixed by [`values_equal_spec`].
#[verifier::loop_isolation(false)]
pub fn values_equal(a: &Value, b: &Value, pool: &RefPool, fuel: usize) -> (r: Result<
    bool,
    ExecError,
>)
    ensures
        match values_equal_spec(*a, *b, pool.lists@, fuel as nat) {
            Some(x) => r == Ok::<bool, ExecError>(x),
            None => r is Err,
        },
        r matches Err(e) ==> (e matches ExecError::Custom { .. }) || (e
            matches ExecError::InvalidOpcode),
    decreases fuel,
{
    if fuel == 0 {
        return Err(ExecError::Custom { message: "value comparison nested too deeply".to_owned() });
    }
    match (a, b) {
        (Value::Bool(x), Value::Bool(y)) => Ok(*x == *y),
        (Value::Number(x), Value::Number(y)) => Ok(num_eq(*x, *y)),
        (Value::Text(x), Value::Text(y)) => {
            let lx = str_lower(x.as_str());
            let ly = str_lower(y.as_str());
            Ok(lx == ly)
        },
        (Value::Closure(x), Value::Closure(y)) => Ok(*x == *y),
        (Value::List(x), Value::List(y)) => {
            if *x == *y {
                return Ok(true);
            }
            let la = match pool.list_len(*x) {
                Some(n) => n,
                None => { return Err(ExecError::InvalidOpcode); },
            };
            let lb = match pool.list_len(*y) {
                Some(n) => n,
                None => { return Err(ExecError::InvalidOpcode); },
            };
            if la != lb {
                return Ok(false);
            }
            let mut i: usize = 0;
            while i < la
                invariant
                    la == pool.lists@[*x as int]@.len(),
                    la == pool.lists@[*y as int]@.len(),
                    *x < pool.lists@.len(),
                    *y < pool.lists@.len(),
                    i <= la,
                    elems_equal_spec(*x as int, *y as int, 0, pool.lists@, fuel as nat)
                        == elems_equal_spec(*x as int, *y as int, i as int, pool.lists@, fuel as nat),
                decreases la - i,
            {
                let ea = match pool.list_get(*x, i) {
                    Some(v) => v,
                    None => { return Err(ExecError::InvalidOpcode); },
                };
                let eb = match pool.list_get(*y, i) {
                    Some(v) => v,
                    None => { return Err(ExecError::InvalidOpcode); },
                };
                match values_equal(&ea, &eb, pool, fuel - 1) {
                    Ok(true) => {},
                    Ok(false) => { return Ok(false); },
                    Err(e) => { return Err(e); },
                }
                i = i + 1;
            }
            Ok(true)
        },
        _ => Ok(false),
    }
}

/// What number coercion yields: a number keeps its bits; text is trimmed
/// of surrounding whitespace and parsed by the fixed rule; anything else
/// is a type mismatch.
pub open spec fn coerce_number_spec(v: Value) -> Result<u64, ExecError> {
    match v {
        Value::Number(n) => Ok(n),
        Value::Text(s) => match parse_bits(trim_of(s@)) {
            Some(n) => Ok(n),
            None => Err(
                ExecError::TypeMismatch { expected: ValueType::Number, got: ValueType::Text },
            ),
        },
        _ => Err(ExecError::TypeMismatch { expected: ValueType::Number, got: type_of(v) }),
    }
}

/// Number coercion, exactly as [`coerce_number_spec`] says.
pub fn coerce_number(v: &Value) -> (r: Result<u64, ExecError>)
    ensures
        r == coerce_number_spec(*v),
{
    match v {
        Value::Number(n) => Ok(*n),
        Value::Text(s) => {
            let t = str_trim(s.as_str());
            match num_parse(t) {
                Some(n) => Ok(n),
                None => Err(
                    ExecError::TypeMismatch { expected: ValueType::Number, got: ValueType::Text },
                ),
            }
        },
        _ => Err(ExecError::TypeMismatch { expected: ValueType::Number, got: v.get_type() }),
    }
}

/// Text coercion: text keeps its characters; a finite number is rendered
/// by the fixed format rule, and the non-finite ones read `inf`, `-inf`
/// and `nan`; a bool reads `true` or `false`; lists and closures are a
/// type mismatch.
pub fn coerce_text(v: &Value) -> (r: Result<String, ExecError>)
    ensures
        match *v {
            Value::Text(s) => r == Ok::<String, ExecError>(s),
            Value::Number(n) => r matches Ok(t) && t@ == if is_nan_bits(n) {
                "nan"@
            } else if !is_finite_bits(n) {
                if n >> 63 == 1 {
                    "-inf"@
                } else {
                    "inf"@
                }
            } else {
                fmt_bits(n)
            },
            Value::Bool(b) => r matches Ok(t) && t@ == if b {
                "true"@
            } else {
                "false"@
            },
            _ => r == Err::<String, ExecError>(
                ExecError::TypeMismatch { expected: ValueType::Text, got: type_of(*v) },
            ),
        },
{
    match v {
        Value::Text(s) => Ok(s.clone()),
        Value::Number(n) => {
            if (*n >> 52) & 0x7ff == 0x7ff {
                if *n & 0xfffffffffffff != 0 {
                    Ok("nan".to_owned())
                } else if *n >> 63 == 1 {
                    Ok("-inf".to_owned())
                } else {
                    Ok("inf".to_owned())
                }
            } else {
                Ok(num_to_text(*n))
            }
        },
        Value::Bool(b) => {
            if *b {
                Ok("true".to_owned())
            } else {
                Ok("false".to_owned())
            }
        },
        _ => Err(ExecError::TypeMismatch { expected: ValueType::Text, got: v.get_type() }),
    }
}

/// 1-based surface indexing: positions run `1 ..= len`; zero, negative and
/// past-the-end indices are out of range, and an empty list has no valid
/// index at all.
pub fn surface_index(len: usize, index: i64) -> (r: Result<usize, ExecError>)
    ensures
        (1 <= index && index <= len) ==> r == Ok::<usize, ExecError>((index - 1) as usize),
        !(1 <= index && index <= len) ==> r == Err::<usize, ExecError>(
            ExecError::IndexOutOfRange { len: len, index: index },
        ),
{
    if 1 <= index && index as u64 <= len as u64 {
        Ok((index - 1) as usize)
    } else {
        Err(ExecError::IndexOutOfRange { len, index })
    }
}

/// Cycle identity: when the list behind `h` contains itself at position
/// `k`, that element and a value holding the list are one identity, however
/// often the cycle is walked.
pub proof fn lemma_cycle_identity(pool: RefPool, h: usize, k: int)
    requires
        h < pool.lists@.len(),
        0 <= k < pool.lists@[h as int]@.len(),
        pool.lists@[h as int]@[k] == Value::List(h),
    ensures
        identity_of(pool.lists@[h as int]@[k]) == identity_of(Value::List(h)),
        identity_of(pool.lists@[h as int]@[k]) == Identity::List(h),
{
}

/// Closure aliasing: when two tables (say a closure's captures and the
/// scope it was made in) bind names to one shared cell, a write through
/// either name is observed at once through the other.
pub proof fn lemma_closure_aliasing(
    before: RefPool,
    after: RefPool,
    t1: SymbolTable,
    t2: SymbolTable,
    n1: Seq<char>,
    n2: Seq<char>,
    c: usize,
    v: Value,
)
    requires
        lookup_spec(t1.entries@, n1) == Some(c),
        lookup_spec(t2.entries@, n2) == Some(c),
        c < before.cells@.len(),
        after.cells@ == before.cells@.update(c as int, v),
    ensures
        after.cells@[lookup_spec(t1.entries@, n1).unwrap() as int] == v,
        after.cells@[lookup_spec(t2.entries@, n2).unwrap() as int] == v,
{
}

} // verus!
