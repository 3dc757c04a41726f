use vstd::prelude::*;

verus! {

/// A type with a well-defined neutral value, used to pre-fill result
/// buffers before a computation writes into them.
pub trait InitValue: Sized {
    /// Whether a value is the type's neutral value.
    spec fn is_init(&self) -> bool;

    /// The neutral value: zero for the integers, `false` for booleans,
    /// empty for strings and vectors, `None` for options.
    fn init_value() -> (r: Self)
        ensures
            r.is_init(),
    ;
}

impl InitValue for usize {
    open spec fn is_init(&self) -> bool {
        *self == 0
    }

    fn init_value() -> (r: usize) {
        0
    }
}

impl InitValue for u8 {
    open spec fn is_init(&self) -> bool {
        *self == 0
    }

    fn init_value() -> (r: u8) {
        0
    }
}

impl InitValue for u16 {
    open spec fn is_init(&self) -> bool {
        *self == 0
    }

    fn init_value() -> (r: u16) {
        0
    }
}

impl InitValue for u32 {
    open spec fn is_init(&self) -> bool {
        *self == 0
    }

    fn init_value() -> (r: u32) {
        0
    }
}

impl InitValue for u64 {
    open spec fn is_init(&self) -> bool {
        *self == 0
    }

    fn init_value() -> (r: u64) {
        0
    }
}

impl InitValue for u128 {
    open spec fn is_init(&self) -> bool {
        *self == 0
    }

    fn init_value() -> (r: u128) {
        0
    }
}

impl InitValue for isize {
    open spec fn is_init(&self) -> bool {
        *self == 0
    }

    fn init_value() -> (r: isize) {
        0
    }
}

impl InitValue for i8 {
    open spec fn is_init(&self) -> bool {
        *self == 0
    }

    fn init_value() -> (r: i8) {
        0
    }
}

impl InitValue for i16 {
    open spec fn is_init(&self) -> bool {
        *self == 0
    }

    fn init_value() -> (r: i16) {
        0
    }
}

impl InitValue for i32 {
    open spec fn is_init(&self) -> bool {
        *self == 0
    }

    fn init_value() -> (r: i32) {
        0
    }
}

impl InitValue for i64 {
    open spec fn is_init(&self) -> bool {
        *self == 0
    }

    fn init_value() -> (r: i64) {
        0
    }
}

impl InitValue for i128 {
    open spec fn is_init(&self) -> bool {
        *self == 0
    }

    fn init_value() -> (r: i128) {
        0
    }
}

impl InitValue for bool {
    open spec fn is_init(&self) -> bool {
        *self == false
    }

    fn init_value() -> (r: bool) {
        false
    }
}

impl InitValue for String {
    open spec fn is_init(&self) -> bool {
        self@.len() == 0
    }

    fn init_value() -> (r: String) {
        String::new()
    }
}

impl<T> InitValue for Vec<T> {
    open spec fn is_init(&self) -> bool {
        self@.len() == 0
    }

    fn init_value() -> (r: Vec<T>) {
        Vec::new()
    }
}

impl<T> InitValue for Option<T> {
    open spec fn is_init(&self) -> bool {
        self is None
    }

    fn init_value() -> (r: Option<T>) {
        None
    }
}

} // verus!
