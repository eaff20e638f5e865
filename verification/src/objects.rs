use vstd::prelude::*;
use vstd::string::*;
use crate::bytecode::{Code, ConstantPoolIndex, Instruction, LocalIndex};
use vstd::utf8::encode_utf8;
use crate::error::ErrorKind;
use crate::serializable::{le_bytes, write_bytes, write_u16, write_u32, write_u8};

verus! {

/// A compiled function.
#[derive(Debug, Clone, PartialEq, Eq)]
pub struct Function {
    /// Index of the function's name in the constant pool.
    pub name: ConstantPoolIndex,
    pub parameters_cnt: u8,
    pub locals_cnt: LocalIndex,
    pub body: Code,
}

pub const FUNCTION_TAG: u8 = 0x00;

pub const STRING_TAG: u8 = 0x01;

pub const CLASS_TAG: u8 = 0x02;

/// An entry of the constant pool.
#[derive(Debug, Clone, PartialEq, Eq)]
pub enum Object {
    String(String),
    Function(Function),
    Class {
        /// Index of the class's name in the constant pool.
        name: ConstantPoolIndex,
        /// Indices of the class's methods in the constant pool.
        methods: Vec<ConstantPoolIndex>,
    },
}

/// What a compiled function is.
pub struct FunctionView {
    pub name: ConstantPoolIndex,
    pub parameters_cnt: u8,
    pub locals_cnt: LocalIndex,
    pub body: Seq<Instruction>,
}

/// What an entry of the constant pool is.
pub enum ObjectView {
    String(Seq<char>),
    Function(FunctionView),
    Class { name: ConstantPoolIndex, methods: Seq<ConstantPoolIndex> },
}

impl View for Function {
    type V = FunctionView;

    open spec fn view(&self) -> FunctionView {
        FunctionView {
            name: self.name,
            parameters_cnt: self.parameters_cnt,
            locals_cnt: self.locals_cnt,
            body: self.body@,
        }
    }
}

impl View for Object {
    type V = ObjectView;

    open spec fn view(&self) -> ObjectView {
        match *self {
            Object::String(s) => ObjectView::String(s@),
            Object::Function(f) => ObjectView::Function(f@),
            Object::Class { name, methods } => ObjectView::Class { name, methods: methods@ },
        }
    }
}

impl From<String> for Object {
    fn from(v: String) -> (r: Self) {
        Object::String(v)
    }
}

impl vstd::std_specs::convert::FromSpecImpl<String> for Object {
    open spec fn obeys_from_spec() -> bool {
        true
    }

    open spec fn from_spec(v: String) -> Self {
        Object::String(v)
    }
}

/// The ordered table of the strings, functions and classes of a program.
#[derive(Debug, Clone, PartialEq, Eq)]
pub struct ConstantPool {
    pub data: Vec<Object>,
}

/// Each entry of `s` as what it is.
pub open spec fn entries(s: Seq<Object>) -> Seq<ObjectView> {
    s.map_values(|o: Object| o@)
}

impl View for ConstantPool {
    type V = Seq<ObjectView>;

    open spec fn view(&self) -> Seq<ObjectView> {
        entries(self.data@)
    }
}

/// The index of the first string entry equal to `s` at or after `from`; the
/// length of the pool where there is none.
pub open spec fn find_string(pool: Seq<ObjectView>, s: Seq<char>, from: int) -> int
    decreases pool.len() - from,
{
    if from < 0 || from >= pool.len() {
        pool.len() as int
    } else if pool[from] == ObjectView::String(s) {
        from
    } else {
        find_string(pool, s, from + 1)
    }
}

/// Where `obj` is found in the pool without adding it: the first equal string
/// for a string, nowhere (the length of the pool) for anything else.
pub open spec fn existing_index(pool: Seq<ObjectView>, obj: ObjectView) -> int {
    match obj {
        ObjectView::String(s) => find_string(pool, s, 0),
        _ => pool.len() as int,
    }
}

/// The pool after `obj` is added to it, and the index of `obj` in it. A
/// string that the pool holds already is not added again. An index that does
/// not fit 32 bits, or a pool that cannot grow without its count leaving
/// 32 bits, is an overflow.
pub open spec fn pool_add(pool: Seq<ObjectView>, obj: ObjectView) -> Result<
    (Seq<ObjectView>, ConstantPoolIndex),
    ErrorKind,
> {
    let found = existing_index(pool, obj);
    if found < pool.len() {
        if found <= u32::MAX {
            Ok((pool, found as u32))
        } else {
            Err(ErrorKind::PoolOverflow)
        }
    } else if pool.len() < u32::MAX {
        Ok((pool.push(obj), pool.len() as u32))
    } else {
        Err(ErrorKind::PoolOverflow)
    }
}

/// `find_string` returns an index of an equal string before which there is
/// none, or the length of the pool where no string is equal.
pub proof fn lemma_find_string(pool: Seq<ObjectView>, s: Seq<char>, from: int)
    requires
        0 <= from <= pool.len(),
    ensures
        from <= find_string(pool, s, from) <= pool.len(),
        find_string(pool, s, from) < pool.len() ==> pool[find_string(pool, s, from)]
            == ObjectView::String(s),
        forall|j: int| from <= j < find_string(pool, s, from) ==> pool[j] != ObjectView::String(s),
    decreases pool.len() - from,
{
    if from < pool.len() && pool[from] != ObjectView::String(s) {
        lemma_find_string(pool, s, from + 1);
    }
}

impl ConstantPool {
    pub fn new() -> (r: Self)
        ensures
            r@ == Seq::<ObjectView>::empty(),
            r.data@ == Seq::<Object>::empty(),
    {
        let r = ConstantPool { data: Vec::new() };
        assert(r@ =~= Seq::<ObjectView>::empty());
        r
    }

    /// Adds an entry and returns its index. A string equal to one that the
    /// pool holds is not added: the index of the first such entry is
    /// returned. On overflow the pool is unchanged.
    pub fn add(&mut self, obj: Object) -> (r: Result<ConstantPoolIndex, ErrorKind>)
        ensures
            match pool_add(old(self)@, obj@) {
                Ok((pool, index)) => r == Ok::<ConstantPoolIndex, ErrorKind>(index) && final(self)@
                    == pool,
                Err(e) => r == Err::<ConstantPoolIndex, ErrorKind>(e) && final(self)@ == old(self)@,
            },
            r is Ok && existing_index(old(self)@, obj@) == old(self)@.len() ==> final(self).data@
                == old(self).data@.push(obj),
            !(r is Ok && existing_index(old(self)@, obj@) == old(self)@.len()) ==> final(self).data@
                == old(self).data@,
    {
        if let Object::String(text) = &obj {
            let mut i: usize = 0;
            while i < self.data.len()
                invariant
                    i <= self.data.len(),
                    *self == *old(self),
                    obj == Object::String(*text),
                    find_string(self@, text@, 0) == find_string(self@, text@, i as int),
                decreases self.data.len() - i,
            {
                let hit = match &self.data[i] {
                    Object::String(searchee) => <String as PartialEq>::eq(searchee, text),
                    _ => false,
                };
                assert(self@[i as int] == self.data@[i as int]@);
                assert(hit == (self@[i as int] == ObjectView::String(text@))) by {
                    match self.data@[i as int] {
                        Object::String(searchee) => {
                            assert(hit == (searchee@ == text@));
                        },
                        _ => {},
                    }
                }
                if hit {
                    if i > 0xffff_ffff {
                        return Err(ErrorKind::PoolOverflow);
                    }
                    return Ok(i as u32);
                }
                i += 1;
            }
        }
        if self.data.len() >= 0xffff_ffff {
            return Err(ErrorKind::PoolOverflow);
        }
        let index = self.data.len() as u32;
        self.data.push(obj);
        assert(self@ =~= old(self)@.push(obj@));
        Ok(index)
    }

    /// The number of entries.
    pub fn len(&self) -> (r: usize)
        ensures
            r == self@.len(),
    {
        self.data.len()
    }
}

impl Object {
    /// The byte that tells the kind of the entry in the image.
    pub open spec fn tag(self) -> u8 {
        match self {
            Object::String(_) => STRING_TAG,
            Object::Function(_) => FUNCTION_TAG,
            Object::Class { .. } => CLASS_TAG,
        }
    }

    /// The byte that tells the kind of the entry in the image.
    pub fn byte_encode(&self) -> (r: u8)
        ensures
            r == self.tag(),
    {
        match self {
            Object::String(_) => STRING_TAG,
            Object::Function(_) => FUNCTION_TAG,
            Object::Class { .. } => CLASS_TAG,
        }
    }
}


impl Function {
    /// The function in the image: the index of its name in four bytes, the
    /// number of its parameters in one, the number of its local slots in
    /// two, and its code.
    pub open spec fn wire(&self) -> Seq<u8> {
        le_bytes(self.name as nat, 4) + seq![self.parameters_cnt] + le_bytes(
            self.locals_cnt as nat,
            2,
        ) + self.body.wire()
    }

    /// Appends the function as it stands in the image. Where its code cannot
    /// stand there, returns the reason; what was appended by then has no
    /// meaning.
    pub fn serialize(&self, out: &mut Vec<u8>) -> (r: Result<(), ErrorKind>)
        ensures
            match self.body.wire_error() {
                None => r is Ok && final(out)@ == old(out)@ + self.wire(),
                Some(e) => r == Err::<(), ErrorKind>(e),
            },
    {
        write_u32(out, self.name);
        write_u8(out, self.parameters_cnt);
        write_u16(out, self.locals_cnt);
        let ghost head = out@;
        match self.body.serialize(out) {
            Ok(()) => {},
            Err(e) => {
                return Err(e);
            },
        }
        assert(out@ =~= old(out)@ + self.wire());
        Ok(())
    }
}

/// The function at `index` of the pool, if there is one.
pub open spec fn function_at(pool: Seq<Object>, index: ConstantPoolIndex) -> Option<Function> {
    if index < pool.len() {
        match pool[index as int] {
            Object::Function(f) => Some(f),
            _ => None,
        }
    } else {
        None
    }
}

/// The records of the methods of a class, in order. An index among
/// `methods` at which the pool holds no function is a fault of whoever made
/// the pool.
pub open spec fn method_records(pool: Seq<Object>, methods: Seq<ConstantPoolIndex>) -> Result<
    Seq<u8>,
    ErrorKind,
>
    decreases methods.len(),
{
    if methods.len() == 0 {
        Ok(Seq::empty())
    } else {
        match method_records(pool, methods.drop_last()) {
            Ok(bytes) => match function_at(pool, methods.last()) {
                Some(f) => match f.body.wire_error() {
                    None => Ok(bytes + f.wire()),
                    Some(e) => Err(e),
                },
                None => Err(ErrorKind::InvariantViolation),
            },
            Err(e) => Err(e),
        }
    }
}

/// The record of an entry of the pool in the image: the tag of its kind,
/// then a string as its length in four bytes and its text in UTF-8; a
/// function as `Function::wire` has it; a class as the index of its name in
/// four bytes, the number of its methods in two, and the record of each
/// method. A length or a count that does not fit its field is an overflow.
pub open spec fn object_record(pool: Seq<Object>, obj: Object) -> Result<Seq<u8>, ErrorKind> {
    match obj {
        Object::String(s) => {
            let text = encode_utf8(s@);
            if text.len() > u32::MAX {
                Err(ErrorKind::PoolOverflow)
            } else {
                Ok(seq![STRING_TAG] + le_bytes(text.len(), 4) + text)
            }
        },
        Object::Function(f) => match f.body.wire_error() {
            None => Ok(seq![FUNCTION_TAG] + f.wire()),
            Some(e) => Err(e),
        },
        Object::Class { name, methods } => if methods.len() > u16::MAX {
            Err(ErrorKind::PoolOverflow)
        } else {
            match method_records(pool, methods@) {
                Ok(bytes) => Ok(
                    seq![CLASS_TAG] + le_bytes(name as nat, 4) + le_bytes(methods.len() as nat, 2)
                        + bytes,
                ),
                Err(e) => Err(e),
            }
        },
    }
}

/// The records of the first `n` entries of the pool, in order; the first
/// entry that has no record decides the error.
pub open spec fn object_records(pool: Seq<Object>, n: nat) -> Result<Seq<u8>, ErrorKind>
    decreases n,
{
    if n == 0 || n > pool.len() {
        Ok(Seq::empty())
    } else {
        match object_records(pool, (n - 1) as nat) {
            Ok(bytes) => match object_record(pool, pool[n - 1]) {
                Ok(record) => Ok(bytes + record),
                Err(e) => Err(e),
            },
            Err(e) => Err(e),
        }
    }
}

/// The pool in the image: the number of its entries in four bytes, then the
/// record of each.
pub open spec fn pool_wire(pool: Seq<Object>) -> Result<Seq<u8>, ErrorKind> {
    if pool.len() > u32::MAX {
        Err(ErrorKind::PoolOverflow)
    } else {
        match object_records(pool, pool.len()) {
            Ok(bytes) => Ok(le_bytes(pool.len(), 4) + bytes),
            Err(e) => Err(e),
        }
    }
}

/// The image of a program: the pool, then the index of the entry point in
/// four bytes.
pub open spec fn image(pool: Seq<Object>, entry_point: ConstantPoolIndex) -> Result<
    Seq<u8>,
    ErrorKind,
> {
    match pool_wire(pool) {
        Ok(bytes) => Ok(bytes + le_bytes(entry_point as nat, 4)),
        Err(e) => Err(e),
    }
}

impl Object {
    /// Appends the record of the entry, which belongs to `pool`, as it
    /// stands in the image. Where it has none, returns the reason; what was
    /// appended by then has no meaning.
    pub fn serialize(&self, pool: &ConstantPool, out: &mut Vec<u8>) -> (r: Result<(), ErrorKind>)
        ensures
            match object_record(pool.data@, *self) {
                Ok(record) => r is Ok && final(out)@ == old(out)@ + record,
                Err(e) => r == Err::<(), ErrorKind>(e),
            },
    {
        write_u8(out, self.byte_encode());
        match self {
            Object::String(v) => {
                let text = v.as_str().as_bytes();
                if text.len() > 0xffff_ffff {
                    return Err(ErrorKind::PoolOverflow);
                }
                write_u32(out, text.len() as u32);
                write_bytes(out, text);
                assert(out@ =~= old(out)@ + (seq![STRING_TAG] + le_bytes(text@.len(), 4) + text@));
                Ok(())
            },
            Object::Function(fun) => {
                match fun.serialize(out) {
                    Ok(()) => {},
                    Err(e) => {
                        return Err(e);
                    },
                }
                assert(out@ =~= old(out)@ + (seq![FUNCTION_TAG] + fun.wire()));
                Ok(())
            },
            Object::Class { name, methods } => {
                if methods.len() > 0xffff {
                    return Err(ErrorKind::PoolOverflow);
                }
                write_u32(out, *name);
                write_u16(out, methods.len() as u16);
                let ghost head = out@;
                let mut i: usize = 0;
                assert(methods@.subrange(0, 0) =~= Seq::<ConstantPoolIndex>::empty());
                assert(out@ =~= head + Seq::<u8>::empty());
                while i < methods.len()
                    invariant
                        i <= methods.len(),
                        methods.len() <= u16::MAX,
                        *self == (Object::Class { name: *name, methods: *methods }),
                        head == old(out)@ + seq![CLASS_TAG] + le_bytes(*name as nat, 4) + le_bytes(
                            methods.len() as nat,
                            2,
                        ),
                        method_records(pool.data@, methods@.subrange(0, i as int)) is Ok,
                        out@ == head + method_records(
                            pool.data@,
                            methods@.subrange(0, i as int),
                        )->Ok_0,
                    decreases methods.len() - i,
                {
                    let ghost done = methods@.subrange(0, i as int);
                    let ghost next = methods@.subrange(0, i + 1);
                    assert(next.drop_last() =~= done);
                    assert(next.last() == methods@[i as int]);
                    let ghost before = out@;
                    let index = methods[i] as usize;
                    let written = if index < pool.data.len() {
                        match &pool.data[index] {
                            Object::Function(f) => f.serialize(out),
                            _ => Err(ErrorKind::InvariantViolation),
                        }
                    } else {
                        Err(ErrorKind::InvariantViolation)
                    };
                    match written {
                        Ok(()) => {},
                        Err(e) => {
                            proof {
                                assert(function_at(pool.data@, methods@[i as int]) is Some
                                    ==> function_at(pool.data@, methods@[i as int])->0
                                    == pool.data@[index as int]->Function_0);
                                assert(method_records(pool.data@, next) == Err::<Seq<u8>, ErrorKind>(e));
                                lemma_method_records_fails(pool.data@, methods@, i + 1);
                            }
                            return Err(e);
                        },
                    }
                    assert(out@ =~= head + method_records(pool.data@, next)->Ok_0);
                    i += 1;
                }
                assert(methods@.subrange(0, i as int) =~= methods@);
                assert(out@ =~= old(out)@ + (seq![CLASS_TAG] + le_bytes(*name as nat, 4) + le_bytes(
                    methods.len() as nat,
                    2,
                ) + method_records(pool.data@, methods@)->Ok_0));
                Ok(())
            },
        }
    }
}

/// Once a method has no record, the methods after it do not change that.
pub proof fn lemma_method_records_fails(pool: Seq<Object>, methods: Seq<ConstantPoolIndex>, n: int)
    requires
        0 <= n <= methods.len(),
        method_records(pool, methods.subrange(0, n)) is Err,
    ensures
        method_records(pool, methods) == method_records(pool, methods.subrange(0, n)),
    decreases methods.len() - n,
{
    if n < methods.len() {
        let next = methods.subrange(0, n + 1);
        assert(next.drop_last() =~= methods.subrange(0, n));
        lemma_method_records_fails(pool, methods, n + 1);
    } else {
        assert(methods.subrange(0, n) =~= methods);
    }
}

/// Once an entry has no record, the entries after it do not change that.
pub proof fn lemma_object_records_fails(pool: Seq<Object>, n: nat)
    requires
        n <= pool.len(),
        object_records(pool, n) is Err,
    ensures
        object_records(pool, pool.len()) == object_records(pool, n),
    decreases pool.len() - n,
{
    if n < pool.len() {
        lemma_object_records_fails(pool, n + 1);
    }
}

impl ConstantPool {
    /// Appends the pool as it stands in the image. Where it cannot stand
    /// there, returns the reason; what was appended by then has no meaning.
    pub fn serialize(&self, out: &mut Vec<u8>) -> (r: Result<(), ErrorKind>)
        ensures
            match pool_wire(self.data@) {
                Ok(bytes) => r is Ok && final(out)@ == old(out)@ + bytes,
                Err(e) => r == Err::<(), ErrorKind>(e),
            },
    {
        if self.data.len() > 0xffff_ffff {
            return Err(ErrorKind::PoolOverflow);
        }
        write_u32(out, self.data.len() as u32);
        let ghost head = out@;
        let mut i: usize = 0;
        assert(out@ =~= head + Seq::<u8>::empty());
        while i < self.data.len()
            invariant
                i <= self.data.len(),
                self.data.len() <= u32::MAX,
                head == old(out)@ + le_bytes(self.data.len() as nat, 4),
                object_records(self.data@, i as nat) is Ok,
                out@ == head + object_records(self.data@, i as nat)->Ok_0,
            decreases self.data.len() - i,
        {
            match self.data[i].serialize(self, out) {
                Ok(()) => {},
                Err(e) => {
                    proof {
                        lemma_object_records_fails(self.data@, (i + 1) as nat);
                    }
                    return Err(e);
                },
            }
            assert(out@ =~= head + object_records(self.data@, (i + 1) as nat)->Ok_0);
            i += 1;
        }
        assert(out@ =~= old(out)@ + (le_bytes(self.data.len() as nat, 4) + object_records(
            self.data@,
            self.data.len() as nat,
        )->Ok_0));
        Ok(())
    }
}

/// The image of a program: what is written to the file that the virtual
/// machine loads.
pub fn write_image(pool: &ConstantPool, entry_point: ConstantPoolIndex) -> (r: Result<
    Vec<u8>,
    ErrorKind,
>)
    ensures
        match image(pool.data@, entry_point) {
            Ok(bytes) => r is Ok && r->Ok_0@ == bytes,
            Err(e) => r == Err::<Vec<u8>, ErrorKind>(e),
        },
{
    let mut out: Vec<u8> = Vec::new();
    match pool.serialize(&mut out) {
        Ok(()) => {},
        Err(e) => {
            return Err(e);
        },
    }
    write_u32(&mut out, entry_point);
    assert(out@ =~= pool_wire(pool.data@)->Ok_0 + le_bytes(entry_point as nat, 4));
    Ok(out)
}

} // verus!
