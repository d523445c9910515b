use std::rc::Rc;
use vstd::prelude::*;

use crate::code::definitions::Instructions;
use crate::common::number;
use crate::common::shared::share;

verus! {

/// A value of the language.
#[derive(Debug)]
pub enum Object {
    Nil,
    Str(String),
    /// A number, held as the bit pattern of an IEEE-754 double.
    Number(u64),
    Bool(bool),
    Builtin(Box<BuiltinFunction>),
    CompiledFunc(Rc<CompiledFunction>),
    Arr(Rc<Array>),
    Hash(Rc<HMap>),
    Clos(Rc<Closure>),
}

/// A function that the machine provides: its name and its place in the list
/// of built-in functions.
#[derive(Debug)]
pub struct BuiltinFunction {
    pub name: String,
    pub index: usize,
}

/// A sequence of values.
#[derive(Debug)]
pub struct Array {
    pub elements: Vec<Rc<Object>>,
}

/// A mapping from keys to values, held as its pairs in the order in which
/// their keys first came in. No two pairs have keys that are the same key.
#[derive(Debug)]
pub struct HMap {
    pub pairs: Vec<(Rc<Object>, Rc<Object>)>,
}

/// A function as the compiler leaves it: its instructions, the number of
/// stack slots it needs for parameters and local bindings together, and
/// the number of its parameters.
#[derive(Debug)]
pub struct CompiledFunction {
    pub instructions: Rc<Instructions>,
    pub num_locals: usize,
    pub num_params: usize,
}

/// A compiled function together with the values of the variables that it
/// captured where it was made.
#[derive(Debug)]
pub struct Closure {
    pub func: Rc<CompiledFunction>,
    pub free: Vec<Rc<Object>>,
}

/// Whether a value can be the key of a mapping: text, numbers and truth
/// values can.
pub open spec fn valid_key(o: Object) -> bool {
    o is Str || o is Number || o is Bool
}

/// Whether two values are the same key of a mapping: the same text, the
/// same truth value, or numbers of the same bit pattern. What is not a
/// number is never the same key, not even as itself.
pub open spec fn same_key(a: Object, b: Object) -> bool {
    match (a, b) {
        (Object::Str(x), Object::Str(y)) => x@ == y@,
        (Object::Bool(x), Object::Bool(y)) => x == y,
        (Object::Number(x), Object::Number(y)) => x == y && !number::is_nan(x),
        _ => false,
    }
}

/// The place of the first pair from `from` on whose key is the same key as
/// `key`, or the number of pairs where there is none.
pub open spec fn key_position(
    pairs: Seq<(Rc<Object>, Rc<Object>)>,
    key: Object,
    from: int,
) -> int
    decreases pairs.len() - from,
{
    if from < 0 || from >= pairs.len() {
        pairs.len() as int
    } else if same_key(*pairs[from].0, key) {
        from
    } else {
        key_position(pairs, key, from + 1)
    }
}

/// The value that a mapping holds under `key`, if it holds one.
pub open spec fn value_under(pairs: Seq<(Rc<Object>, Rc<Object>)>, key: Object) -> Option<
    Rc<Object>,
> {
    let at = key_position(pairs, key, 0);
    if 0 <= at < pairs.len() {
        Some(pairs[at].1)
    } else {
        None
    }
}

/// The pairs of a mapping after `value` is put under `key`: the value takes
/// the place of the one that was under the key, or the pair joins the end.
pub open spec fn with_pair(
    pairs: Seq<(Rc<Object>, Rc<Object>)>,
    key: Rc<Object>,
    value: Rc<Object>,
) -> Seq<(Rc<Object>, Rc<Object>)> {
    let at = key_position(pairs, *key, 0);
    if 0 <= at < pairs.len() {
        pairs.update(at, (pairs[at].0, value))
    } else {
        pairs.push((key, value))
    }
}

/// Whether two values are equal. Text, numbers and truth values are equal
/// as such; numbers by value, so that the two zeros are equal and what is
/// not a number equals nothing. Arrays are equal where they have equal
/// elements in the same places, mappings where they have as many pairs and
/// hold equal values under the same keys. Functions are equal where their
/// instructions are, built-in functions where their names are. Values of
/// different kinds are never equal.
pub open spec fn objects_equal(a: Object, b: Object) -> bool
    decreases a,
{
    match a {
        Object::Nil => b is Nil,
        Object::Str(x) => b matches Object::Str(y) && x@ == y@,
        Object::Number(x) => b matches Object::Number(y) && number::equal(x, y),
        Object::Bool(x) => b matches Object::Bool(y) && x == y,
        Object::Builtin(x) => b matches Object::Builtin(y) && x.name@ == y.name@,
        Object::CompiledFunc(x) => b matches Object::CompiledFunc(y) && functions_equal(*x, *y),
        Object::Clos(x) => b matches Object::Clos(y) && functions_equal(*x.func, *y.func),
        Object::Arr(x) => b matches Object::Arr(y) && x.elements@.len() == y.elements@.len()
            && forall|i: int|
            0 <= i < x.elements@.len() ==> objects_equal(
                *#[trigger] x.elements@[i],
                *y.elements@[i],
            ),
        Object::Hash(x) => b matches Object::Hash(y) && x.pairs@.len() == y.pairs@.len()
            && forall|i: int|
            0 <= i < x.pairs@.len() ==> {
                let pair = #[trigger] x.pairs@[i];
                value_under(y.pairs@, *pair.0) matches Some(other) && objects_equal(
                    *pair.1,
                    *other,
                )
            },
    }
}

/// Whether two compiled functions have the same instructions, byte for byte
/// and line for line.
pub open spec fn functions_equal(a: CompiledFunction, b: CompiledFunction) -> bool {
    a.instructions.code@ == b.instructions.code@ && a.instructions.lines@
        == b.instructions.lines@
}

/// Whether a value counts as false: `false` and nil do.
pub open spec fn falsey(o: Object) -> bool {
    o == Object::Bool(false) || o is Nil
}

impl BuiltinFunction {
    pub fn new(name: String, index: usize) -> (f: BuiltinFunction)
        ensures
            f.name == name,
            f.index == index,
    {
        BuiltinFunction { name, index }
    }
}

impl Clone for BuiltinFunction {
    fn clone(&self) -> (copy: BuiltinFunction)
        ensures
            copy == *self,
    {
        BuiltinFunction { name: self.name.clone(), index: self.index }
    }
}

impl CompiledFunction {
    pub fn new(instructions: Instructions, num_locals: usize, num_params: usize) -> (f:
        CompiledFunction)
        ensures
            *f.instructions == instructions,
            f.num_locals == num_locals,
            f.num_params == num_params,
    {
        CompiledFunction { instructions: Rc::new(instructions), num_locals, num_params }
    }
}

impl Clone for CompiledFunction {
    fn clone(&self) -> (copy: CompiledFunction)
        ensures
            copy == *self,
    {
        CompiledFunction {
            instructions: share(&self.instructions),
            num_locals: self.num_locals,
            num_params: self.num_params,
        }
    }
}

impl Closure {
    pub fn new(func: Rc<CompiledFunction>, free: Vec<Rc<Object>>) -> (closure: Closure)
        ensures
            closure.func == func,
            closure.free == free,
    {
        Closure { func, free }
    }
}

/// A second list of handles to the same values.
pub fn share_values(values: &Vec<Rc<Object>>) -> (copy: Vec<Rc<Object>>)
    ensures
        copy@ == values@,
{
    let mut copy: Vec<Rc<Object>> = Vec::new();
    let mut i: usize = 0;
    while i < values.len()
        invariant
            i <= values@.len(),
            copy@ == values@.take(i as int),
        decreases values@.len() - i,
    {
        copy.push(share(&values[i]));
        i = i + 1;
        assert(copy@ =~= values@.take(i as int));
    }
    assert(values@.take(values@.len() as int) =~= values@);
    copy
}

impl Clone for Array {
    fn clone(&self) -> (copy: Array)
        ensures
            copy.elements@ == self.elements@,
    {
        Array { elements: share_values(&self.elements) }
    }
}

impl Clone for Object {
    /// A value of its own that holds the same: text is copied, what lies
    /// behind a shared handle is shared.
    fn clone(&self) -> (copy: Object)
        ensures
            copy == *self,
    {
        match self {
            Object::Nil => Object::Nil,
            Object::Str(s) => Object::Str(s.clone()),
            Object::Number(n) => Object::Number(*n),
            Object::Bool(b) => Object::Bool(*b),
            Object::Builtin(f) => {
                let copy: BuiltinFunction = (**f).clone();
                Object::Builtin(Box::new(copy))
            },
            Object::CompiledFunc(f) => Object::CompiledFunc(share(f)),
            Object::Arr(a) => Object::Arr(share(a)),
            Object::Hash(m) => Object::Hash(share(m)),
            Object::Clos(c) => Object::Clos(share(c)),
        }
    }
}

impl Object {
    pub fn is_nil(&self) -> (b: bool)
        ensures
            b == (self is Nil),
    {
        match self {
            Object::Nil => true,
            _ => false,
        }
    }

    pub fn is_string(&self) -> (b: bool)
        ensures
            b == (self is Str),
    {
        match self {
            Object::Str(_) => true,
            _ => false,
        }
    }

    pub fn is_number(&self) -> (b: bool)
        ensures
            b == (self is Number),
    {
        match self {
            Object::Number(_) => true,
            _ => false,
        }
    }

    /// Whether the value counts as false.
    pub fn is_falsey(&self) -> (b: bool)
        ensures
            b == falsey(*self),
    {
        match self {
            Object::Bool(false) => true,
            Object::Nil => true,
            _ => false,
        }
    }

    /// Whether the value can be the key of a mapping.
    pub fn is_a_valid_key(&self) -> (b: bool)
        ensures
            b == valid_key(*self),
    {
        match self {
            Object::Str(_) => true,
            Object::Number(_) => true,
            Object::Bool(_) => true,
            _ => false,
        }
    }

    /// Whether this value and `other` are the same key of a mapping.
    pub fn is_same_key(&self, other: &Object) -> (b: bool)
        ensures
            b == same_key(*self, *other),
    {
        match (self, other) {
            (Object::Str(x), Object::Str(y)) => *x == *y,
            (Object::Bool(x), Object::Bool(y)) => *x == *y,
            (Object::Number(x), Object::Number(y)) => *x == *y && !number::number_is_nan(*x),
            _ => false,
        }
    }

    /// Whether this value equals `other`.
    pub fn equals(&self, other: &Object) -> (b: bool)
        ensures
            b == objects_equal(*self, *other),
        decreases self,
    {
        match self {
            Object::Nil => other.is_nil(),
            Object::Str(x) => match other {
                Object::Str(y) => *x == *y,
                _ => false,
            },
            Object::Number(x) => match other {
                Object::Number(y) => number::number_equal(*x, *y),
                _ => false,
            },
            Object::Bool(x) => match other {
                Object::Bool(y) => *x == *y,
                _ => false,
            },
            Object::Builtin(x) => match other {
                Object::Builtin(y) => x.name == y.name,
                _ => false,
            },
            Object::CompiledFunc(x) => match other {
                Object::CompiledFunc(y) => *x.instructions == *y.instructions,
                _ => false,
            },
            Object::Clos(x) => match other {
                Object::Clos(y) => *x.func.instructions == *y.func.instructions,
                _ => false,
            },
            Object::Arr(x) => match other {
                Object::Arr(y) => {
                    if x.elements.len() != y.elements.len() {
                        return false;
                    }
                    let mut i: usize = 0;
                    while i < x.elements.len()
                        invariant
                            *self == Object::Arr(*x),
                            *other == Object::Arr(*y),
                            x.elements@.len() == y.elements@.len(),
                            i <= x.elements@.len(),
                            forall|j: int|
                                0 <= j < i ==> objects_equal(
                                    *#[trigger] x.elements@[j],
                                    *y.elements@[j],
                                ),
                        decreases x.elements@.len() - i,
                    {
                        assert(decreases_to!(x.elements => x.elements[i as int]));
                        assert(*x == self->Arr_0);
                        assert(decreases_to!(*self => self->Arr_0.elements));
                        assert(decreases_to!(*self => x.elements[i as int]));
                        if !x.elements[i].equals(&y.elements[i]) {
                            return false;
                        }
                        i = i + 1;
                    }
                    true
                },
                _ => false,
            },
            Object::Hash(x) => match other {
                Object::Hash(y) => {
                    if x.pairs.len() != y.pairs.len() {
                        return false;
                    }
                    let mut i: usize = 0;
                    while i < x.pairs.len()
                        invariant
                            *self == Object::Hash(*x),
                            *other == Object::Hash(*y),
                            x.pairs@.len() == y.pairs@.len(),
                            i <= x.pairs@.len(),
                            forall|j: int|
                                0 <= j < i ==> {
                                    let pair = #[trigger] x.pairs@[j];
                                    value_under(y.pairs@, *pair.0) matches Some(found)
                                        && objects_equal(*pair.1, *found)
                                },
                        decreases x.pairs@.len() - i,
                    {
                        assert(decreases_to!(x.pairs => x.pairs[i as int]));
                        assert(*x == self->Hash_0);
                        assert(decreases_to!(*self => self->Hash_0));
                        assert(decreases_to!(*self => self->Hash_0.pairs));
                        assert(decreases_to!(*self => x.pairs[i as int]));
                        assert(decreases_to!(*self => x.pairs[i as int].1));
                        match y.get(&x.pairs[i].0) {
                            None => {
                                return false;
                            },
                            Some(found) => {
                                if !x.pairs[i].1.equals(&found) {
                                    return false;
                                }
                            },
                        }
                        i = i + 1;
                    }
                    true
                },
                _ => false,
            },
        }
    }
}

impl PartialEq for Object {
    fn eq(&self, other: &Self) -> (same: bool) {
        self.equals(other)
    }
}

impl vstd::std_specs::cmp::PartialEqSpecImpl for Object {
    open spec fn obeys_eq_spec() -> bool {
        true
    }

    open spec fn eq_spec(&self, other: &Self) -> bool {
        objects_equal(*self, *other)
    }
}

impl Eq for Object {

}

impl HMap {
    /// No two pairs have the same key, and every key can be one.
    pub open spec fn wf(&self) -> bool {
        &&& forall|i: int| 0 <= i < self.pairs@.len() ==> valid_key(*#[trigger] self.pairs@[i].0)
        &&& forall|i: int, j: int|
            0 <= i < j < self.pairs@.len() ==> !same_key(
                *#[trigger] self.pairs@[i].0,
                *#[trigger] self.pairs@[j].0,
            )
    }

    /// A mapping without pairs.
    pub fn new() -> (map: HMap)
        ensures
            map.wf(),
            map.pairs@ == Seq::<(Rc<Object>, Rc<Object>)>::empty(),
    {
        HMap { pairs: Vec::new() }
    }

    /// The place of the pair whose key is the same key as `key`, or the
    /// number of pairs where there is none.
    pub fn position(&self, key: &Object) -> (at: usize)
        ensures
            at == key_position(self.pairs@, *key, 0),
            at <= self.pairs@.len(),
    {
        let mut i: usize = 0;
        while i < self.pairs.len()
            invariant
                i <= self.pairs@.len(),
                key_position(self.pairs@, *key, i as int) == key_position(self.pairs@, *key, 0),
            decreases self.pairs@.len() - i,
        {
            if self.pairs[i].0.is_same_key(key) {
                return i;
            }
            i = i + 1;
        }
        i
    }

    /// The value under `key`, if the mapping holds one.
    pub fn get(&self, key: &Object) -> (found: Option<Rc<Object>>)
        ensures
            found == value_under(self.pairs@, *key),
    {
        let at = self.position(key);
        if at < self.pairs.len() {
            Some(share(&self.pairs[at].1))
        } else {
            None
        }
    }

    /// Puts `value` under `key`. A value that was under the key gives way.
    pub fn insert(&mut self, key: Rc<Object>, value: Rc<Object>)
        requires
            old(self).wf(),
            valid_key(*key),
        ensures
            final(self).wf(),
            final(self).pairs@ == with_pair(old(self).pairs@, key, value),
    {
        let at = self.position(&key);
        if at < self.pairs.len() {
            let kept = share(&self.pairs[at].0);
            self.pairs.set(at, (kept, value));
        } else {
            proof {
                lemma_no_position(self.pairs@, key, 0);
            }
            self.pairs.push((key, value));
        }
    }
}

/// Where a key has no place among the pairs, no pair's key is the same key.
pub proof fn lemma_no_position(pairs: Seq<(Rc<Object>, Rc<Object>)>, key: Rc<Object>, from: int)
    requires
        0 <= from,
        key_position(pairs, *key, from) >= pairs.len(),
    ensures
        forall|i: int| from <= i < pairs.len() ==> !same_key(*#[trigger] pairs[i].0, *key),
    decreases pairs.len() - from,
{
    if from < pairs.len() {
        lemma_no_position(pairs, key, from + 1);
    }
}

} // verus!
