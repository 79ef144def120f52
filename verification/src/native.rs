use vstd::prelude::*;

verus! {

/// The `array(...)` built-in: collects its arguments into a new array.
#[derive(Debug)]
pub struct ArrayFn;

impl ArrayFn {
    /// The declared arity; the function is variadic, so it is not checked.
    pub fn arity(&self) -> (r: usize)
        ensures
            r == 0,
    {
        0
    }

    pub fn is_variadic(&self) -> (r: bool)
        ensures
            r,
    {
        true
    }

    /// The elements of the new array: the arguments, in order.
    pub fn call<V>(&self, args: Vec<V>) -> (r: Vec<V>)
        ensures
            r@ == args@,
    {
        let mut array: Vec<V> = Vec::new();
        for arg in it: args
            invariant
                array@ == it.seq().take(it.index() as int),
                it.seq() == args@,
        {
            array.push(arg);
        }
        array
    }
}

/// The `floor(n)` built-in; rounding the number down is the evaluator's work.
#[derive(Debug)]
pub struct MathFloorFn;

impl MathFloorFn {
    pub fn arity(&self) -> (r: usize)
        ensures
            r == 1,
    {
        1
    }
}


/// The methods an array value answers to.
#[derive(Debug, Clone, Copy, PartialEq, Eq, Structural)]
pub enum ArrayMethodKind {
    Push,
    Pop,
    Len,
    SetItem,
    GetItem,
    Undefined,
}

/// Which array method a name denotes.
pub open spec fn array_method_of(name: Seq<char>) -> ArrayMethodKind {
    if name == "push"@ {
        ArrayMethodKind::Push
    } else if name == "pop"@ {
        ArrayMethodKind::Pop
    } else if name == "len"@ {
        ArrayMethodKind::Len
    } else if name == "set"@ {
        ArrayMethodKind::SetItem
    } else if name == "get"@ {
        ArrayMethodKind::GetItem
    } else {
        ArrayMethodKind::Undefined
    }
}

/// The number of arguments each array method takes.
pub open spec fn array_arity(name: Seq<char>) -> usize {
    match array_method_of(name) {
        ArrayMethodKind::Push => 1,
        ArrayMethodKind::SetItem => 2,
        ArrayMethodKind::GetItem => 1,
        _ => 0,
    }
}

/// Classifies a method name.
pub fn array_method_kind(method_name: &String) -> (r: ArrayMethodKind)
    ensures
        r == array_method_of(method_name@),
{
    if *method_name == String::from_str("push") {
        ArrayMethodKind::Push
    } else if *method_name == String::from_str("pop") {
        ArrayMethodKind::Pop
    } else if *method_name == String::from_str("len") {
        ArrayMethodKind::Len
    } else if *method_name == String::from_str("set") {
        ArrayMethodKind::SetItem
    } else if *method_name == String::from_str("get") {
        ArrayMethodKind::GetItem
    } else {
        ArrayMethodKind::Undefined
    }
}

/// The number of arguments an array method takes (`push` 1, `pop` 0,
/// `len` 0, `set` 2, `get` 1; 0 for any other name).
pub fn array_method_arity(method_name: &String) -> (r: usize)
    ensures
        r == array_arity(method_name@),
{
    match array_method_kind(method_name) {
        ArrayMethodKind::Push => 1,
        ArrayMethodKind::SetItem => 2,
        ArrayMethodKind::GetItem => 1,
        _ => 0,
    }
}

/// What an array method gives back: nothing, an element, or a length.
#[derive(Debug)]
pub enum ArrayReply<V> {
    Nil,
    Value(V),
    Length(usize),
}

pub open spec fn undefined_method_message(name: Seq<char>) -> Seq<char> {
    "Undefined array method '"@ + name + "'."@
}

/// What running the array method `name` on the array `before` may give:
/// the array `after` and the reply `r`. For `set` and `get`, `index` is the
/// first argument read as an index, or the message that says why it is not
/// one. Stored and returned elements are clones of the ones handed in.
pub open spec fn array_method_outcome<V: Clone>(
    name: Seq<char>,
    before: Seq<V>,
    after: Seq<V>,
    args: Seq<V>,
    index: Result<usize, String>,
    r: Result<ArrayReply<V>, String>,
) -> bool {
    match array_method_of(name) {
        ArrayMethodKind::Push => {
            &&& after.len() == before.len() + 1
            &&& after.drop_last() == before
            &&& cloned(args[0], after.last())
            &&& r matches Ok(ArrayReply::Nil)
        },
        ArrayMethodKind::Pop => if before.len() == 0 {
            &&& after == before
            &&& r matches Err(m) && m@ == "Cannot pop from empty array."@
        } else {
            &&& after == before.drop_last()
            &&& r matches Ok(ArrayReply::Value(v)) && v == before.last()
        },
        ArrayMethodKind::Len => {
            &&& after == before
            &&& r matches Ok(ArrayReply::Length(n)) && n == before.len()
        },
        ArrayMethodKind::SetItem => match index {
            Err(m) => after == before && r == Err::<ArrayReply<V>, String>(m),
            Ok(i) => if i >= before.len() {
                &&& after == before
                &&& r matches Err(m) && m@ == "Cannot set array index."@
            } else {
                &&& after.len() == before.len()
                &&& forall|j: int| 0 <= j < before.len() && j != i ==> after[j] == before[j]
                &&& cloned(args[1], after[i as int])
                &&& r matches Ok(ArrayReply::Value(v)) && cloned(after[i as int], v)
            },
        },
        ArrayMethodKind::GetItem => {
            &&& after == before
            &&& match index {
                Err(m) => r == Err::<ArrayReply<V>, String>(m),
                Ok(i) => if i >= before.len() {
                    r matches Err(m) && m@ == "Cannot set array index."@
                } else {
                    r matches Ok(ArrayReply::Value(v)) && cloned(before[i as int], v)
                },
            }
        },
        ArrayMethodKind::Undefined => {
            &&& after == before
            &&& r matches Err(m) && m@ == undefined_method_message(name)
        },
    }
}

/// Runs the array method `method_name` on `arr`. For `set` and `get`,
/// `index` is the first argument read as an index, or the message that says
/// why it is not one.
pub fn call_array_method<V: Clone>(
    method_name: &String,
    arr: &mut Vec<V>,
    args: &Vec<V>,
    index: Result<usize, String>,
) -> (r: Result<ArrayReply<V>, String>)
    requires
        args@.len() >= array_arity(method_name@),
    ensures
        array_method_outcome(method_name@, old(arr)@, final(arr)@, args@, index, r),
{
    match array_method_kind(method_name) {
        ArrayMethodKind::Push => {
            arr.push(args[0].clone());
            assert(arr@.drop_last() =~= old(arr)@);
            Ok(ArrayReply::Nil)
        },
        ArrayMethodKind::Pop => {
            match arr.pop() {
                Some(v) => Ok(ArrayReply::Value(v)),
                None => Err(String::from_str("Cannot pop from empty array.")),
            }
        },
        ArrayMethodKind::Len => Ok(ArrayReply::Length(arr.len())),
        ArrayMethodKind::SetItem => {
            match index {
                Err(m) => Err(m),
                Ok(i) => {
                    if i >= arr.len() {
                        Err(String::from_str("Cannot set array index."))
                    } else {
                        arr.set(i, args[1].clone());
                        Ok(ArrayReply::Value(arr[i].clone()))
                    }
                },
            }
        },
        ArrayMethodKind::GetItem => {
            match index {
                Err(m) => Err(m),
                Ok(i) => {
                    if i >= arr.len() {
                        Err(String::from_str("Cannot set array index."))
                    } else {
                        Ok(ArrayReply::Value(arr[i].clone()))
                    }
                },
            }
        },
        ArrayMethodKind::Undefined => {
            let mut message = String::from_str("Undefined array method '");
            message.append(method_name.as_str());
            message.append("'.");
            Err(message)
        },
    }
}

/// `pop` undoes `push`: it gives back (a clone of) the pushed value and
/// leaves the array as it was before the push; in between, `len` has grown
/// by one.
pub proof fn lemma_pop_undoes_push<V: Clone>(
    a0: Seq<V>,
    a1: Seq<V>,
    a2: Seq<V>,
    args1: Seq<V>,
    args2: Seq<V>,
    index1: Result<usize, String>,
    index2: Result<usize, String>,
    r1: Result<ArrayReply<V>, String>,
    r2: Result<ArrayReply<V>, String>,
)
    requires
        array_method_outcome("push"@, a0, a1, args1, index1, r1),
        array_method_outcome("pop"@, a1, a2, args2, index2, r2),
    ensures
        a1.len() == a0.len() + 1,
        a2 == a0,
        r2 matches Ok(ArrayReply::Value(v)) && cloned(args1[0], v),
{
    reveal_strlit("push");
    reveal_strlit("pop");
    assert("pop"@.len() != "push"@.len());
    assert(array_method_of("push"@) == ArrayMethodKind::Push);
    assert(array_method_of("pop"@) == ArrayMethodKind::Pop);
}

/// `get` at an index just `set` answers (a clone of) what was stored there,
/// and leaves the array alone.
pub proof fn lemma_get_reads_set<V: Clone>(
    a0: Seq<V>,
    a1: Seq<V>,
    a2: Seq<V>,
    args1: Seq<V>,
    args2: Seq<V>,
    i: usize,
    r1: Result<ArrayReply<V>, String>,
    r2: Result<ArrayReply<V>, String>,
)
    requires
        i < a0.len(),
        array_method_outcome("set"@, a0, a1, args1, Ok(i), r1),
        array_method_outcome("get"@, a1, a2, args2, Ok(i), r2),
    ensures
        a2 == a1,
        a1.len() == a0.len(),
        cloned(args1[1], a1[i as int]),
        r2 matches Ok(ArrayReply::Value(v)) && cloned(a1[i as int], v),
{
    reveal_strlit("push");
    reveal_strlit("pop");
    reveal_strlit("len");
    reveal_strlit("set");
    reveal_strlit("get");
    assert("set"@.len() != "push"@.len() && "get"@.len() != "push"@.len());
    assert("set"@[0] != "pop"@[0] && "set"@[0] != "len"@[0]);
    assert("get"@[0] != "pop"@[0] && "get"@[0] != "len"@[0] && "get"@[0] != "set"@[0]);
    assert(array_method_of("set"@) == ArrayMethodKind::SetItem);
    assert(array_method_of("get"@) == ArrayMethodKind::GetItem);
}

} // verus!
