//! Linking of JIT objects that helper processes compiled.
use vstd::prelude::*;
use vstd::utf8::encode_utf8;

verus! {

/// Bytes of JIT code that are allocated, given what the compiler's memory plugin reports. Without
/// a plugin there are none.
pub fn jit_total_bytes(usage: Option<usize>) -> (bytes: usize)
    ensures
        bytes == (match usage {
            Some(total) => total,
            None => 0,
        }),
{
    match usage {
        Some(total) => total,
        None => 0,
    }
}

/// An object that a helper process compiled.
pub struct JitObjectSuccess {
    /// Symbol of the program in the object.
    pub symbol_name: String,
    /// The object itself.
    pub object_bytes: Vec<u8>,
    /// Builtins that the object refers to.
    pub builtin_symbols: Vec<String>,
}

/// Why an object cannot be linked.
#[derive(Clone, Copy, Debug, PartialEq, Eq, Structural)]
pub enum LinkError {
    /// There is no compiler backend to link with.
    BackendUnavailable,
    /// The name of the program holds a zero byte.
    InvalidSymbol,
    /// The builtin at this position is not known.
    UnknownBuiltin(usize),
    /// The name of the builtin at this position holds a zero byte.
    InvalidBuiltin(usize),
}

/// Whether a name holds a zero byte, which no linker symbol may.
pub open spec fn has_nul(name: Seq<char>) -> bool {
    encode_utf8(name).contains(0u8)
}

/// Whether a name holds a zero byte.
fn contains_nul(name: &String) -> (r: bool)
    ensures
        r == has_nul(name@),
{
    let bytes = name.as_str().as_bytes();
    for i in 0..bytes.len()
        invariant
            bytes@ == encode_utf8(name@),
            forall|j: int| 0 <= j < i ==> bytes@[j] != 0u8,
    {
        if bytes[i] == 0 {
            return true;
        }
    }
    false
}

/// The defect of the builtin at a position: it is not known, or its name holds a zero byte.
pub open spec fn builtin_defect(
    symbols: Seq<String>,
    addresses: Seq<Option<usize>>,
    i: int,
) -> Option<LinkError> {
    if addresses[i] is None {
        Some(LinkError::UnknownBuiltin(i as usize))
    } else if has_nul(symbols[i]@) {
        Some(LinkError::InvalidBuiltin(i as usize))
    } else {
        None
    }
}

/// The first defect among the builtins from position `i` on.
pub open spec fn first_builtin_defect(
    symbols: Seq<String>,
    addresses: Seq<Option<usize>>,
    i: int,
) -> Option<LinkError>
    decreases symbols.len() - i,
{
    if i >= symbols.len() {
        None
    } else if builtin_defect(symbols, addresses, i) is Some {
        builtin_defect(symbols, addresses, i)
    } else {
        first_builtin_defect(symbols, addresses, i + 1)
    }
}

/// The builtins of an object are in order if and only if each is known and no name holds a zero byte.
/// Otherwise the first that is not is reported, by its position: as unknown where it has no address,
/// else for its name.
pub proof fn law_first_defect_is_reported(
    symbols: Seq<String>,
    addresses: Seq<Option<usize>>,
    from: int,
)
    requires
        0 <= from <= symbols.len(),
        symbols.len() == addresses.len(),
        symbols.len() <= usize::MAX,
    ensures
        match first_builtin_defect(symbols, addresses, from) {
            None => forall|i: int|
                from <= i < symbols.len() ==> #[trigger] addresses[i] is Some && !encode_utf8(
                    symbols[i]@,
                ).contains(0u8),
            Some(LinkError::UnknownBuiltin(at)) => {
                &&& from <= at < symbols.len()
                &&& addresses[at as int] is None
                &&& forall|i: int|
                    from <= i < at ==> #[trigger] addresses[i] is Some && !encode_utf8(
                        symbols[i]@,
                    ).contains(0u8)
            },
            Some(LinkError::InvalidBuiltin(at)) => {
                &&& from <= at < symbols.len()
                &&& addresses[at as int] is Some
                &&& encode_utf8(symbols[at as int]@).contains(0u8)
                &&& forall|i: int|
                    from <= i < at ==> #[trigger] addresses[i] is Some && !encode_utf8(
                        symbols[i]@,
                    ).contains(0u8)
            },
            Some(_) => false,
        },
        forall|name: Seq<char>| #[trigger]
            has_nul(name) <==> encode_utf8(name).contains(0u8),
    decreases symbols.len() - from,
{
    if from < symbols.len() && builtin_defect(symbols, addresses, from) is None {
        law_first_defect_is_reported(symbols, addresses, from + 1);
    }
}

/// Links objects with a compiler backend of type `B`, which is made when it is first needed and
/// kept.
pub struct JitObjectLinker<B> {
    backend: Option<B>,
}

impl<B> JitObjectLinker<B> {
    /// The backend, once it is made.
    pub closed spec fn view(&self) -> Option<B> {
        self.backend
    }

    /// A linker without a backend.
    pub fn new() -> (r: Self)
        ensures
            r@ is None,
    {
        JitObjectLinker { backend: None }
    }

    /// Whether the next [`JitObjectLinker::link`] has to be given a fresh backend.
    pub fn needs_backend(&self) -> (r: bool)
        ensures
            r == (self@ is None),
    {
        self.backend.is_none()
    }

    /// The backend to link with, once it is made.
    pub fn backend(&self) -> (r: Option<&B>)
        ensures
            r == (match self@ {
                Some(b) => Some(&b),
                None => None,
            }),
    {
        self.backend.as_ref()
    }

    /// Checks that an object can be linked and resolves its builtins.
    ///
    /// `fresh` is the backend that was made for this call, if one was needed and could be made.
    /// `addresses` holds where each of the object's builtins lies, if it is known.
    pub fn link(
        &mut self,
        fresh: Option<B>,
        success: &JitObjectSuccess,
        addresses: &Vec<Option<usize>>,
    ) -> (r: Result<Vec<(String, usize)>, LinkError>)
        requires
            addresses@.len() == success.builtin_symbols@.len(),
        ensures
            final(self)@ == (if old(self)@ is Some {
                old(self)@
            } else {
                fresh
            }),
            match r {
                Ok(builtins) => {
                    &&& final(self)@ is Some
                    &&& !has_nul(success.symbol_name@)
                    &&& first_builtin_defect(success.builtin_symbols@, addresses@, 0) is None
                    &&& builtins@.len() == addresses@.len()
                    &&& forall|i: int|
                        0 <= i < builtins@.len() ==> (#[trigger] builtins@[i]).0
                            == success.builtin_symbols@[i] && Some(builtins@[i].1) == addresses@[i]
                },
                Err(e) => if final(self)@ is None {
                    e == LinkError::BackendUnavailable
                } else if has_nul(success.symbol_name@) {
                    e == LinkError::InvalidSymbol
                } else {
                    first_builtin_defect(success.builtin_symbols@, addresses@, 0) == Some(e)
                },
            },
    {
        if self.backend.is_none() {
            match fresh {
                Some(backend) => {
                    self.backend = Some(backend);
                },
                None => {
                    return Err(LinkError::BackendUnavailable);
                },
            }
        }
        if contains_nul(&success.symbol_name) {
            return Err(LinkError::InvalidSymbol);
        }
        let ghost symbols = success.builtin_symbols@;
        let mut builtins: Vec<(String, usize)> = Vec::new();
        for i in 0..success.builtin_symbols.len()
            invariant
                symbols == success.builtin_symbols@,
                addresses@.len() == symbols.len(),
                !has_nul(success.symbol_name@),
                self@ is Some,
                self@ == (if old(self)@ is Some {
                    old(self)@
                } else {
                    fresh
                }),
                builtins@.len() == i,
                forall|j: int|
                    0 <= j < i ==> (#[trigger] builtins@[j]).0 == symbols[j] && Some(
                        builtins@[j].1,
                    ) == addresses@[j],
                first_builtin_defect(symbols, addresses@, 0) == first_builtin_defect(
                    symbols,
                    addresses@,
                    i as int,
                ),
        {
            match addresses[i] {
                Some(address) => {
                    if contains_nul(&success.builtin_symbols[i]) {
                        return Err(LinkError::InvalidBuiltin(i));
                    }
                    builtins.push((success.builtin_symbols[i].clone(), address));
                },
                None => {
                    return Err(LinkError::UnknownBuiltin(i));
                },
            }
        }
        Ok(builtins)
    }
}

} // verus!
