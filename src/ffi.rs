//! Checks made before a foreign function is called through the C ABI: the
//! argument count and the type codes of arguments and return value.
use vstd::prelude::*;
use vstd::string::StringSliceAdditionalSpecFns;

verus! {

/// Why a foreign call was refused; each has a status code for the C caller.
#[derive(Clone, Debug, PartialEq, Eq)]
pub enum CallError {
    /// The number of type codes and of arguments differ: (types, arguments).
    UnmatchingArgCount(usize, usize),
    /// A type code that names no argument type.
    InvalidFFIArgType(i32),
    /// The call interface could not be prepared.
    LibFFI(String),
}

impl CallError {
    /// The status code returned to the C caller.
    pub fn as_code(&self) -> (r: i32)
        ensures
            r == match self {
                CallError::UnmatchingArgCount(_, _) => 1i32,
                CallError::InvalidFFIArgType(_) => 2i32,
                CallError::LibFFI(_) => 3i32,
            },
    {
        match self {
            CallError::UnmatchingArgCount(_, _) => 1,
            CallError::InvalidFFIArgType(_) => 2,
            CallError::LibFFI(_) => 3,
        }
    }
}

/// The argument and return types a foreign call can use.
#[derive(Clone, Copy, Debug, PartialEq, Eq, Structural)]
pub enum ArgType {
    Void,
    UInt8,
    Sint8,
    UInt16,
    Sint16,
    UInt32,
    Sint32,
    UInt64,
    Sint64,
    Float,
    Double,
    Pointer,
}

/// The type code of each argument type.
pub open spec fn arg_code(t: ArgType) -> i32 {
    match t {
        ArgType::Void => 0,
        ArgType::UInt8 => 1,
        ArgType::Sint8 => 2,
        ArgType::UInt16 => 3,
        ArgType::Sint16 => 4,
        ArgType::UInt32 => 5,
        ArgType::Sint32 => 6,
        ArgType::UInt64 => 7,
        ArgType::Sint64 => 8,
        ArgType::Float => 9,
        ArgType::Double => 10,
        ArgType::Pointer => 11,
    }
}

/// The type a code names, if any.
pub open spec fn arg_type_of(code: i32) -> Option<ArgType> {
    if code == 0 {
        Some(ArgType::Void)
    } else if code == 1 {
        Some(ArgType::UInt8)
    } else if code == 2 {
        Some(ArgType::Sint8)
    } else if code == 3 {
        Some(ArgType::UInt16)
    } else if code == 4 {
        Some(ArgType::Sint16)
    } else if code == 5 {
        Some(ArgType::UInt32)
    } else if code == 6 {
        Some(ArgType::Sint32)
    } else if code == 7 {
        Some(ArgType::UInt64)
    } else if code == 8 {
        Some(ArgType::Sint64)
    } else if code == 9 {
        Some(ArgType::Float)
    } else if code == 10 {
        Some(ArgType::Double)
    } else if code == 11 {
        Some(ArgType::Pointer)
    } else {
        None
    }
}

impl ArgType {
    /// The type code of the type.
    pub fn code(self) -> (r: i32)
        ensures
            r == arg_code(self),
            arg_type_of(r) == Some(self),
    {
        match self {
            ArgType::Void => 0,
            ArgType::UInt8 => 1,
            ArgType::Sint8 => 2,
            ArgType::UInt16 => 3,
            ArgType::Sint16 => 4,
            ArgType::UInt32 => 5,
            ArgType::Sint32 => 6,
            ArgType::UInt64 => 7,
            ArgType::Sint64 => 8,
            ArgType::Float => 9,
            ArgType::Double => 10,
            ArgType::Pointer => 11,
        }
    }

    /// The type named by `code`.
    pub fn from_repr(code: i32) -> (r: Option<ArgType>)
        ensures
            r == arg_type_of(code),
            r is Some ==> arg_code(r->Some_0) == code,
    {
        match code {
            0 => Some(ArgType::Void),
            1 => Some(ArgType::UInt8),
            2 => Some(ArgType::Sint8),
            3 => Some(ArgType::UInt16),
            4 => Some(ArgType::Sint16),
            5 => Some(ArgType::UInt32),
            6 => Some(ArgType::Sint32),
            7 => Some(ArgType::UInt64),
            8 => Some(ArgType::Sint64),
            9 => Some(ArgType::Float),
            10 => Some(ArgType::Double),
            11 => Some(ArgType::Pointer),
            _ => None,
        }
    }
}

/// Checks a foreign call's signature: as many type codes as arguments, each a
/// known type. Returns the argument types and the return type, an unknown
/// return code meaning no return value.
pub fn prepare_call(arg_types: &Vec<i32>, args_len: usize, ret_type: i32) -> (r: Result<
    (Vec<ArgType>, ArgType),
    CallError,
>)
    ensures
        arg_types@.len() != args_len ==> r == Err::<(Vec<ArgType>, ArgType), CallError>(
            CallError::UnmatchingArgCount(arg_types@.len() as usize, args_len),
        ),
        arg_types@.len() == args_len ==> match r {
            Ok((types, ret)) => types@.len() == arg_types@.len() && (forall|i: int|
                0 <= i < types@.len() ==> arg_type_of(arg_types@[i]) == Some(#[trigger] types@[i]))
                && ret == (if arg_type_of(ret_type) is Some {
                arg_type_of(ret_type)->Some_0
            } else {
                ArgType::Void
            }),
            Err(e) => exists|i: int|
                0 <= i < arg_types@.len() && arg_type_of(#[trigger] arg_types@[i]) is None && e
                    == CallError::InvalidFFIArgType(arg_types@[i]) && forall|j: int|
                    0 <= j < i ==> arg_type_of(#[trigger] arg_types@[j]) is Some,
        },
{
    if arg_types.len() != args_len {
        return Err(CallError::UnmatchingArgCount(arg_types.len(), args_len));
    }
    let mut types: Vec<ArgType> = Vec::new();
    let mut i: usize = 0;
    while i < arg_types.len()
        invariant
            0 <= i <= arg_types@.len(),
            arg_types@.len() == args_len,
            types@.len() == i,
            forall|k: int| 0 <= k < i ==> arg_type_of(arg_types@[k]) == Some(#[trigger] types@[k]),
        decreases arg_types@.len() - i,
    {
        match ArgType::from_repr(arg_types[i]) {
            None => {
                assert forall|j: int| 0 <= j < i implies arg_type_of(#[trigger] arg_types@[j]) is Some by {
                    assert(arg_type_of(arg_types@[j]) == Some(types@[j]));
                }
                return Err(CallError::InvalidFFIArgType(arg_types[i]));
            },
            Some(t) => {
                types.push(t);
            },
        }
        i = i + 1;
    }
    let ret = match ArgType::from_repr(ret_type) {
        Some(t) => t,
        None => ArgType::Void,
    };
    Ok((types, ret))
}

/// The value types a script can pass to, or expect from, a foreign call.
#[derive(Clone, Copy, Debug, PartialEq, Eq, Structural)]
pub enum ArgumentType {
    Void,
    UInt8,
    SInt8,
    UInt16,
    SInt16,
    UInt32,
    SInt32,
    UInt64,
    SInt64,
    Float,
    Double,
    Pointer,
    String,
}

/// The argument type a script names, if any.
pub open spec fn argument_type_of_name(b: Seq<u8>) -> Option<ArgumentType> {
    if b == seq![0x76u8, 0x6fu8, 0x69u8, 0x64u8] {
        Some(ArgumentType::Void)
    } else if b == seq![0x75u8, 0x69u8, 0x6eu8, 0x74u8, 0x38u8] || b == seq![0x75u8, 0x38u8] {
        Some(ArgumentType::UInt8)
    } else if b == seq![0x69u8, 0x6eu8, 0x74u8, 0x38u8] || b == seq![0x69u8, 0x38u8] {
        Some(ArgumentType::SInt8)
    } else if b == seq![0x75u8, 0x69u8, 0x6eu8, 0x74u8, 0x31u8, 0x36u8] || b == seq![0x75u8, 0x31u8, 0x36u8] {
        Some(ArgumentType::UInt16)
    } else if b == seq![0x69u8, 0x6eu8, 0x74u8, 0x31u8, 0x36u8] || b == seq![0x69u8, 0x31u8, 0x36u8] {
        Some(ArgumentType::SInt16)
    } else if b == seq![0x75u8, 0x69u8, 0x6eu8, 0x74u8, 0x33u8, 0x32u8] || b == seq![0x75u8, 0x33u8, 0x32u8] {
        Some(ArgumentType::UInt32)
    } else if b == seq![0x69u8, 0x6eu8, 0x74u8, 0x33u8, 0x32u8] || b == seq![0x69u8, 0x33u8, 0x32u8] {
        Some(ArgumentType::SInt32)
    } else if b == seq![0x75u8, 0x69u8, 0x6eu8, 0x74u8, 0x36u8, 0x34u8] || b == seq![0x75u8, 0x36u8, 0x34u8] {
        Some(ArgumentType::UInt64)
    } else if b == seq![0x69u8, 0x6eu8, 0x74u8, 0x36u8, 0x34u8] || b == seq![0x69u8, 0x36u8, 0x34u8] {
        Some(ArgumentType::SInt64)
    } else if b == seq![0x66u8, 0x6cu8, 0x6fu8, 0x61u8, 0x74u8] || b == seq![0x66u8, 0x33u8, 0x32u8] {
        Some(ArgumentType::Float)
    } else if b == seq![0x64u8, 0x6fu8, 0x75u8, 0x62u8, 0x6cu8, 0x65u8] || b == seq![0x66u8, 0x36u8, 0x34u8] {
        Some(ArgumentType::Double)
    } else if b == seq![0x70u8, 0x6fu8, 0x69u8, 0x6eu8, 0x74u8, 0x65u8, 0x72u8] {
        Some(ArgumentType::Pointer)
    } else if b == seq![0x73u8, 0x74u8, 0x72u8, 0x69u8, 0x6eu8, 0x67u8] {
        Some(ArgumentType::String)
    } else {
        None
    }
}

impl ArgumentType {
    /// The argument type named `type_name` by a script.
    pub fn from_type_name(name: &str) -> (r: Option<ArgumentType>)
        ensures
            r == argument_type_of_name(name.spec_bytes()),
    {
        let b = name.as_bytes();
        if b.len() == 4 && b[0] == 0x76u8 && b[1] == 0x6fu8 && b[2] == 0x69u8 && b[3] == 0x64u8 {
            assert(b@ =~= seq![0x76u8, 0x6fu8, 0x69u8, 0x64u8]);
            return Some(ArgumentType::Void);
        }
        if b.len() == 5 && b[0] == 0x75u8 && b[1] == 0x69u8 && b[2] == 0x6eu8 && b[3] == 0x74u8 && b[4] == 0x38u8 {
            assert(b@ =~= seq![0x75u8, 0x69u8, 0x6eu8, 0x74u8, 0x38u8]);
            return Some(ArgumentType::UInt8);
        }
        if b.len() == 2 && b[0] == 0x75u8 && b[1] == 0x38u8 {
            assert(b@ =~= seq![0x75u8, 0x38u8]);
            return Some(ArgumentType::UInt8);
        }
        if b.len() == 4 && b[0] == 0x69u8 && b[1] == 0x6eu8 && b[2] == 0x74u8 && b[3] == 0x38u8 {
            assert(b@ =~= seq![0x69u8, 0x6eu8, 0x74u8, 0x38u8]);
            return Some(ArgumentType::SInt8);
        }
        if b.len() == 2 && b[0] == 0x69u8 && b[1] == 0x38u8 {
            assert(b@ =~= seq![0x69u8, 0x38u8]);
            return Some(ArgumentType::SInt8);
        }
        if b.len() == 6 && b[0] == 0x75u8 && b[1] == 0x69u8 && b[2] == 0x6eu8 && b[3] == 0x74u8 && b[4] == 0x31u8 && b[5] == 0x36u8 {
            assert(b@ =~= seq![0x75u8, 0x69u8, 0x6eu8, 0x74u8, 0x31u8, 0x36u8]);
            return Some(ArgumentType::UInt16);
        }
        if b.len() == 3 && b[0] == 0x75u8 && b[1] == 0x31u8 && b[2] == 0x36u8 {
            assert(b@ =~= seq![0x75u8, 0x31u8, 0x36u8]);
            return Some(ArgumentType::UInt16);
        }
        if b.len() == 5 && b[0] == 0x69u8 && b[1] == 0x6eu8 && b[2] == 0x74u8 && b[3] == 0x31u8 && b[4] == 0x36u8 {
            assert(b@ =~= seq![0x69u8, 0x6eu8, 0x74u8, 0x31u8, 0x36u8]);
            return Some(ArgumentType::SInt16);
        }
        if b.len() == 3 && b[0] == 0x69u8 && b[1] == 0x31u8 && b[2] == 0x36u8 {
            assert(b@ =~= seq![0x69u8, 0x31u8, 0x36u8]);
            return Some(ArgumentType::SInt16);
        }
        if b.len() == 6 && b[0] == 0x75u8 && b[1] == 0x69u8 && b[2] == 0x6eu8 && b[3] == 0x74u8 && b[4] == 0x33u8 && b[5] == 0x32u8 {
            assert(b@ =~= seq![0x75u8, 0x69u8, 0x6eu8, 0x74u8, 0x33u8, 0x32u8]);
            return Some(ArgumentType::UInt32);
        }
        if b.len() == 3 && b[0] == 0x75u8 && b[1] == 0x33u8 && b[2] == 0x32u8 {
            assert(b@ =~= seq![0x75u8, 0x33u8, 0x32u8]);
            return Some(ArgumentType::UInt32);
        }
        if b.len() == 5 && b[0] == 0x69u8 && b[1] == 0x6eu8 && b[2] == 0x74u8 && b[3] == 0x33u8 && b[4] == 0x32u8 {
            assert(b@ =~= seq![0x69u8, 0x6eu8, 0x74u8, 0x33u8, 0x32u8]);
            return Some(ArgumentType::SInt32);
        }
        if b.len() == 3 && b[0] == 0x69u8 && b[1] == 0x33u8 && b[2] == 0x32u8 {
            assert(b@ =~= seq![0x69u8, 0x33u8, 0x32u8]);
            return Some(ArgumentType::SInt32);
        }
        if b.len() == 6 && b[0] == 0x75u8 && b[1] == 0x69u8 && b[2] == 0x6eu8 && b[3] == 0x74u8 && b[4] == 0x36u8 && b[5] == 0x34u8 {
            assert(b@ =~= seq![0x75u8, 0x69u8, 0x6eu8, 0x74u8, 0x36u8, 0x34u8]);
            return Some(ArgumentType::UInt64);
        }
        if b.len() == 3 && b[0] == 0x75u8 && b[1] == 0x36u8 && b[2] == 0x34u8 {
            assert(b@ =~= seq![0x75u8, 0x36u8, 0x34u8]);
            return Some(ArgumentType::UInt64);
        }
        if b.len() == 5 && b[0] == 0x69u8 && b[1] == 0x6eu8 && b[2] == 0x74u8 && b[3] == 0x36u8 && b[4] == 0x34u8 {
            assert(b@ =~= seq![0x69u8, 0x6eu8, 0x74u8, 0x36u8, 0x34u8]);
            return Some(ArgumentType::SInt64);
        }
        if b.len() == 3 && b[0] == 0x69u8 && b[1] == 0x36u8 && b[2] == 0x34u8 {
            assert(b@ =~= seq![0x69u8, 0x36u8, 0x34u8]);
            return Some(ArgumentType::SInt64);
        }
        if b.len() == 5 && b[0] == 0x66u8 && b[1] == 0x6cu8 && b[2] == 0x6fu8 && b[3] == 0x61u8 && b[4] == 0x74u8 {
            assert(b@ =~= seq![0x66u8, 0x6cu8, 0x6fu8, 0x61u8, 0x74u8]);
            return Some(ArgumentType::Float);
        }
        if b.len() == 3 && b[0] == 0x66u8 && b[1] == 0x33u8 && b[2] == 0x32u8 {
            assert(b@ =~= seq![0x66u8, 0x33u8, 0x32u8]);
            return Some(ArgumentType::Float);
        }
        if b.len() == 6 && b[0] == 0x64u8 && b[1] == 0x6fu8 && b[2] == 0x75u8 && b[3] == 0x62u8 && b[4] == 0x6cu8 && b[5] == 0x65u8 {
            assert(b@ =~= seq![0x64u8, 0x6fu8, 0x75u8, 0x62u8, 0x6cu8, 0x65u8]);
            return Some(ArgumentType::Double);
        }
        if b.len() == 3 && b[0] == 0x66u8 && b[1] == 0x36u8 && b[2] == 0x34u8 {
            assert(b@ =~= seq![0x66u8, 0x36u8, 0x34u8]);
            return Some(ArgumentType::Double);
        }
        if b.len() == 7 && b[0] == 0x70u8 && b[1] == 0x6fu8 && b[2] == 0x69u8 && b[3] == 0x6eu8 && b[4] == 0x74u8 && b[5] == 0x65u8 && b[6] == 0x72u8 {
            assert(b@ =~= seq![0x70u8, 0x6fu8, 0x69u8, 0x6eu8, 0x74u8, 0x65u8, 0x72u8]);
            return Some(ArgumentType::Pointer);
        }
        if b.len() == 6 && b[0] == 0x73u8 && b[1] == 0x74u8 && b[2] == 0x72u8 && b[3] == 0x69u8 && b[4] == 0x6eu8 && b[5] == 0x67u8 {
            assert(b@ =~= seq![0x73u8, 0x74u8, 0x72u8, 0x69u8, 0x6eu8, 0x67u8]);
            return Some(ArgumentType::String);
        }
        None
    }
}

} // verus!
