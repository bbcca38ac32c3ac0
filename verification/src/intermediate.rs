//! The intermediate representation the compiler lowers the syntax tree into.
use vstd::prelude::*;

verus! {

/// The syntax tree as the later passes see it.
pub struct AbstractSyntaxTree {}

/// A lexical scope and the scopes nested in it.
pub struct Scope {
    inner: Vec<Scope>,
}

/// A value of one of the language's variable types.
enum AnslVariableType {
    Unsigned8(u8),
    Unsigned16(u16),
    Unsigned32(u32),
    Unsigned64(u64),
    Signed8(i8),
    Signed16(i16),
    Signed32(i32),
    Signed64(i64),
    Array(Vec<AnslVariableType>),
    Char(char),
    String(String),
}

/// Where a variable lives.
enum MemoryPartition {
    Stack,
    Heap,
}

/// The address of a variable: its partition, and its label on the heap or its number on the stack.
struct Address {
    partition: MemoryPartition,
    heap_label: Option<String>,
    stack_id: Option<usize>,
}

/// A variable: its value and its address; stack variables are numbered from 0 as pushed.
struct Variable {
    content: AnslVariableType,
    address: Address,
}

/// An array literal before it is typed: its elements' text, its length and its element type.
struct RawArray {
    content: Vec<String>,
    length: usize,
    ansl_type: AnslVariableType,
}

/// An array literal once tokenized.
struct TokenizedArray {}

} // verus!
