//! The functions that the machine provides, by their place in the list.

pub mod print;

use std::rc::Rc;
use vstd::prelude::*;
use vstd::string::StringSliceAdditionalSpecFns;

use crate::common::number::{nearest_double, number_from_usize};
use crate::common::object::{share_values, Array, Object};
use crate::common::shared::share;
use crate::text::{decimal, push_decimal};

verus! {

/// The number of built-in functions.
pub const BUILTIN_COUNT: usize = 9;

/// The name of the built-in function at a place in the list.
pub open spec fn builtin_name_of(index: usize) -> Seq<char> {
    if index == 0 {
        "len"@
    } else if index == 1 {
        "puts"@
    } else if index == 2 {
        "first"@
    } else if index == 3 {
        "last"@
    } else if index == 4 {
        "rest"@
    } else if index == 5 {
        "push"@
    } else if index == 6 {
        "str"@
    } else if index == 7 {
        "time"@
    } else {
        "format"@
    }
}

/// The name of the built-in function at a place in the list.
pub fn builtin_name(index: usize) -> (name: &'static str)
    requires
        index < BUILTIN_COUNT,
    ensures
        name@ == builtin_name_of(index),
{
    if index == 0 {
        "len"
    } else if index == 1 {
        "puts"
    } else if index == 2 {
        "first"
    } else if index == 3 {
        "last"
    } else if index == 4 {
        "rest"
    } else if index == 5 {
        "push"
    } else if index == 6 {
        "str"
    } else if index == 7 {
        "time"
    } else {
        "format"
    }
}

/// Whether the machine works a built-in function out by itself. The others
/// print, ask the clock or write numbers out, which is the work of the
/// program around the machine.
pub open spec fn is_pure_builtin(index: usize) -> bool {
    index == 0 || index == 2 || index == 3 || index == 4 || index == 5
}

/// The message of `len` for a wrong number of arguments.
pub open spec fn len_arity_message(got: nat) -> Seq<char> {
    "wrong number of arguments. got="@ + decimal(got) + ", want=1"@
}

/// What `len` gives: the number of bytes of a text, or of elements of an
/// array. It takes one argument, and no other kind of value.
pub open spec fn len_gives(args: Seq<Rc<Object>>, res: Result<Rc<Object>, String>) -> bool {
    match res {
        Ok(v) => args.len() == 1 && match *args[0] {
            Object::Str(s) => *v == Object::Number(nearest_double(vstd::utf8::encode_utf8(s@).len())),
            Object::Arr(a) => *v == Object::Number(nearest_double(a.elements@.len())),
            _ => false,
        },
        Err(msg) => if args.len() != 1 {
            msg@ == len_arity_message(args.len())
        } else {
            !(*args[0] is Str) && !(*args[0] is Arr) && msg@ == "argument to 'len' not supported"@
        },
    }
}

/// What `first` gives: the first element of an array, or nil for an empty
/// one.
pub open spec fn first_gives(args: Seq<Rc<Object>>, res: Result<Rc<Object>, String>) -> bool {
    match res {
        Ok(v) => {
            &&& args.len() >= 1
            &&& *args[0] matches Object::Arr(a)
            &&& if a.elements@.len() > 0 {
                v == a.elements@[0]
            } else {
                *v == Object::Nil
            }
        },
        Err(msg) => if args.len() == 0 {
            msg@ == "no arguments provided"@
        } else {
            !(*args[0] is Arr) && msg@ == "argument to 'first' not supported"@
        },
    }
}

/// What `last` gives: the last element of an array, or nil for an empty
/// one.
pub open spec fn last_gives(args: Seq<Rc<Object>>, res: Result<Rc<Object>, String>) -> bool {
    match res {
        Ok(v) => {
            &&& args.len() >= 1
            &&& *args[0] matches Object::Arr(a)
            &&& if a.elements@.len() > 0 {
                v == a.elements@.last()
            } else {
                *v == Object::Nil
            }
        },
        Err(msg) => if args.len() == 0 {
            msg@ == "no arguments provided"@
        } else {
            !(*args[0] is Arr) && msg@ == "argument to 'last' not supported"@
        },
    }
}

/// What `rest` gives: a new array of all elements of an array but the
/// first, or nil for an empty array.
pub open spec fn rest_gives(args: Seq<Rc<Object>>, res: Result<Rc<Object>, String>) -> bool {
    match res {
        Ok(v) => {
            &&& args.len() >= 1
            &&& *args[0] matches Object::Arr(a)
            &&& if a.elements@.len() > 0 {
                &&& *v matches Object::Arr(b)
                &&& b.elements@ == a.elements@.subrange(1, a.elements@.len() as int)
            } else {
                *v == Object::Nil
            }
        },
        Err(msg) => if args.len() == 0 {
            msg@ == "argument to 'last' not provided"@
        } else {
            !(*args[0] is Arr) && msg@ == "argument to 'last' not supported"@
        },
    }
}

/// What `push` gives: a new array of the elements of an array and one more
/// value at the end.
pub open spec fn push_gives(args: Seq<Rc<Object>>, res: Result<Rc<Object>, String>) -> bool {
    match res {
        Ok(v) => {
            &&& args.len() >= 2
            &&& *args[0] matches Object::Arr(a)
            &&& *v matches Object::Arr(b)
            &&& b.elements@ == a.elements@.push(args[1])
        },
        Err(msg) => if args.len() < 2 {
            msg@ == "'push' needs atleast two arguments"@
        } else {
            !(*args[0] is Arr) && msg@ == "argument to 'push' not supported"@
        },
    }
}

/// `len`: the number of bytes of a text, or of elements of an array.
pub fn builtin_len(args: &Vec<Rc<Object>>) -> (res: Result<Rc<Object>, String>)
    ensures
        len_gives(args@, res),
{
    if args.len() != 1 {
        let mut msg = "wrong number of arguments. got=".to_owned();
        push_decimal(&mut msg, args.len());
        msg.append(", want=1");
        return Err(msg);
    }
    match &*args[0] {
        Object::Str(s) => Ok(
            Rc::new(Object::Number(number_from_usize(s.as_str().as_bytes().len()))),
        ),
        Object::Arr(a) => Ok(Rc::new(Object::Number(number_from_usize(a.elements.len())))),
        _ => Err("argument to 'len' not supported".to_owned()),
    }
}

/// `first`: the first element of an array, or nil for an empty one.
pub fn builtin_first(args: &Vec<Rc<Object>>) -> (res: Result<Rc<Object>, String>)
    ensures
        first_gives(args@, res),
{
    if args.len() == 0 {
        return Err("no arguments provided".to_owned());
    }
    match &*args[0] {
        Object::Arr(a) => {
            if a.elements.len() > 0 {
                Ok(share(&a.elements[0]))
            } else {
                Ok(Rc::new(Object::Nil))
            }
        },
        _ => Err("argument to 'first' not supported".to_owned()),
    }
}

/// `last`: the last element of an array, or nil for an empty one.
pub fn builtin_last(args: &Vec<Rc<Object>>) -> (res: Result<Rc<Object>, String>)
    ensures
        last_gives(args@, res),
{
    if args.len() == 0 {
        return Err("no arguments provided".to_owned());
    }
    match &*args[0] {
        Object::Arr(a) => {
            if a.elements.len() > 0 {
                Ok(share(&a.elements[a.elements.len() - 1]))
            } else {
                Ok(Rc::new(Object::Nil))
            }
        },
        _ => Err("argument to 'last' not supported".to_owned()),
    }
}

/// `rest`: a new array of all elements but the first, or nil for an empty
/// array.
pub fn builtin_rest(args: &Vec<Rc<Object>>) -> (res: Result<Rc<Object>, String>)
    ensures
        rest_gives(args@, res),
{
    if args.len() == 0 {
        return Err("argument to 'last' not provided".to_owned());
    }
    match &*args[0] {
        Object::Arr(a) => {
            if a.elements.len() == 0 {
                Ok(Rc::new(Object::Nil))
            } else {
                let mut elements: Vec<Rc<Object>> = Vec::new();
                let mut i: usize = 1;
                while i < a.elements.len()
                    invariant
                        1 <= i <= a.elements@.len(),
                        elements@ == a.elements@.subrange(1, i as int),
                    decreases a.elements@.len() - i,
                {
                    elements.push(share(&a.elements[i]));
                    i = i + 1;
                    assert(elements@ =~= a.elements@.subrange(1, i as int));
                }
                Ok(Rc::new(Object::Arr(Rc::new(Array { elements }))))
            }
        },
        _ => Err("argument to 'last' not supported".to_owned()),
    }
}

/// `push`: a new array of the elements of an array and one more value at
/// the end.
pub fn builtin_push(args: &Vec<Rc<Object>>) -> (res: Result<Rc<Object>, String>)
    ensures
        push_gives(args@, res),
{
    if args.len() < 2 {
        return Err("'push' needs atleast two arguments".to_owned());
    }
    match &*args[0] {
        Object::Arr(a) => {
            let mut elements = share_values(&a.elements);
            elements.push(share(&args[1]));
            Ok(Rc::new(Object::Arr(Rc::new(Array { elements }))))
        },
        _ => Err("argument to 'push' not supported".to_owned()),
    }
}

/// What a built-in function that the machine works out by itself gives for
/// its arguments.
pub open spec fn pure_builtin_gives(
    index: usize,
    args: Seq<Rc<Object>>,
    res: Result<Rc<Object>, String>,
) -> bool {
    if index == 0 {
        len_gives(args, res)
    } else if index == 2 {
        first_gives(args, res)
    } else if index == 3 {
        last_gives(args, res)
    } else if index == 4 {
        rest_gives(args, res)
    } else {
        push_gives(args, res)
    }
}

/// Works out a built-in function that needs nothing from outside the
/// machine: `len`, `first`, `last`, `rest` or `push`.
pub fn call_pure_builtin(index: usize, args: &Vec<Rc<Object>>) -> (res: Result<Rc<Object>, String>)
    requires
        is_pure_builtin(index),
    ensures
        pure_builtin_gives(index, args@, res),
{
    if index == 0 {
        builtin_len(args)
    } else if index == 2 {
        builtin_first(args)
    } else if index == 3 {
        builtin_last(args)
    } else if index == 4 {
        builtin_rest(args)
    } else {
        builtin_push(args)
    }
}

/// Whether the machine works a built-in function out by itself.
pub fn builtin_is_pure(index: usize) -> (pure: bool)
    ensures
        pure == is_pure_builtin(index),
{
    index == 0 || index == 2 || index == 3 || index == 4 || index == 5
}

} // verus!
