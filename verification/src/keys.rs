//! Identity of a compiled program: the hash of its bytecode and the hardfork it runs under.
use vstd::prelude::*;
use vstd::string::*;

verus! {

/// A 256-bit hash, as its two big-endian halves.
#[derive(Clone, Copy, Debug, PartialEq, Eq, Structural)]
pub struct B256 {
    /// The leading sixteen bytes.
    pub hi: u128,
    /// The trailing sixteen bytes.
    pub lo: u128,
}

impl B256 {
    /// The hash whose bytes are all zero but the last.
    pub fn with_last_byte(byte: u8) -> (h: B256)
        ensures
            h == (B256 { hi: 0, lo: byte as u128 }),
    {
        B256 { hi: 0, lo: byte as u128 }
    }

    /// Order of the hashes as byte strings.
    pub open spec fn spec_less(self, other: B256) -> bool {
        self.hi < other.hi || (self.hi == other.hi && self.lo < other.lo)
    }

    /// Whether `self` stands before `other` as a byte string.
    pub fn less(self, other: B256) -> (r: bool)
        ensures
            r == self.spec_less(other),
    {
        self.hi < other.hi || (self.hi == other.hi && self.lo < other.lo)
    }
}

/// An Ethereum hardfork.
#[allow(non_camel_case_types)]
#[derive(Clone, Copy, Debug, PartialEq, Eq, Structural)]
pub enum SpecId {
    FRONTIER,
    HOMESTEAD,
    TANGERINE,
    SPURIOUS_DRAGON,
    BYZANTIUM,
    PETERSBURG,
    ISTANBUL,
    BERLIN,
    LONDON,
    MERGE,
    SHANGHAI,
    CANCUN,
    PRAGUE,
    OSAKA,
    AMSTERDAM,
}

impl SpecId {
    /// Position of the hardfork in the order of activation.
    pub open spec fn spec_rank(self) -> u8 {
        match self {
            SpecId::FRONTIER => 0,
            SpecId::HOMESTEAD => 1,
            SpecId::TANGERINE => 2,
            SpecId::SPURIOUS_DRAGON => 3,
            SpecId::BYZANTIUM => 4,
            SpecId::PETERSBURG => 5,
            SpecId::ISTANBUL => 6,
            SpecId::BERLIN => 7,
            SpecId::LONDON => 8,
            SpecId::MERGE => 9,
            SpecId::SHANGHAI => 10,
            SpecId::CANCUN => 11,
            SpecId::PRAGUE => 12,
            SpecId::OSAKA => 13,
            SpecId::AMSTERDAM => 14,
        }
    }

    /// Position of the hardfork in the order of activation.
    pub fn rank(self) -> (r: u8)
        ensures
            r == self.spec_rank(),
            r < 15,
    {
        match self {
            SpecId::FRONTIER => 0,
            SpecId::HOMESTEAD => 1,
            SpecId::TANGERINE => 2,
            SpecId::SPURIOUS_DRAGON => 3,
            SpecId::BYZANTIUM => 4,
            SpecId::PETERSBURG => 5,
            SpecId::ISTANBUL => 6,
            SpecId::BERLIN => 7,
            SpecId::LONDON => 8,
            SpecId::MERGE => 9,
            SpecId::SHANGHAI => 10,
            SpecId::CANCUN => 11,
            SpecId::PRAGUE => 12,
            SpecId::OSAKA => 13,
            SpecId::AMSTERDAM => 14,
        }
    }

    /// The hardfork at a position, if there is one.
    pub fn from_rank(rank: u8) -> (r: Option<SpecId>)
        ensures
            r is Some <==> rank < 15,
            r matches Some(spec_id) ==> spec_id.spec_rank() == rank,
    {
        match rank {
            0 => Some(SpecId::FRONTIER),
            1 => Some(SpecId::HOMESTEAD),
            2 => Some(SpecId::TANGERINE),
            3 => Some(SpecId::SPURIOUS_DRAGON),
            4 => Some(SpecId::BYZANTIUM),
            5 => Some(SpecId::PETERSBURG),
            6 => Some(SpecId::ISTANBUL),
            7 => Some(SpecId::BERLIN),
            8 => Some(SpecId::LONDON),
            9 => Some(SpecId::MERGE),
            10 => Some(SpecId::SHANGHAI),
            11 => Some(SpecId::CANCUN),
            12 => Some(SpecId::PRAGUE),
            13 => Some(SpecId::OSAKA),
            14 => Some(SpecId::AMSTERDAM),
            _ => None,
        }
    }

    /// The name of the hardfork.
    pub open spec fn spec_name(self) -> Seq<char> {
        match self {
            SpecId::FRONTIER => "FRONTIER"@,
            SpecId::HOMESTEAD => "HOMESTEAD"@,
            SpecId::TANGERINE => "TANGERINE"@,
            SpecId::SPURIOUS_DRAGON => "SPURIOUS_DRAGON"@,
            SpecId::BYZANTIUM => "BYZANTIUM"@,
            SpecId::PETERSBURG => "PETERSBURG"@,
            SpecId::ISTANBUL => "ISTANBUL"@,
            SpecId::BERLIN => "BERLIN"@,
            SpecId::LONDON => "LONDON"@,
            SpecId::MERGE => "MERGE"@,
            SpecId::SHANGHAI => "SHANGHAI"@,
            SpecId::CANCUN => "CANCUN"@,
            SpecId::PRAGUE => "PRAGUE"@,
            SpecId::OSAKA => "OSAKA"@,
            SpecId::AMSTERDAM => "AMSTERDAM"@,
        }
    }

    /// The name of the hardfork.
    pub fn name(self) -> (s: &'static str)
        ensures
            s@ == self.spec_name(),
    {
        match self {
            SpecId::FRONTIER => "FRONTIER",
            SpecId::HOMESTEAD => "HOMESTEAD",
            SpecId::TANGERINE => "TANGERINE",
            SpecId::SPURIOUS_DRAGON => "SPURIOUS_DRAGON",
            SpecId::BYZANTIUM => "BYZANTIUM",
            SpecId::PETERSBURG => "PETERSBURG",
            SpecId::ISTANBUL => "ISTANBUL",
            SpecId::BERLIN => "BERLIN",
            SpecId::LONDON => "LONDON",
            SpecId::MERGE => "MERGE",
            SpecId::SHANGHAI => "SHANGHAI",
            SpecId::CANCUN => "CANCUN",
            SpecId::PRAGUE => "PRAGUE",
            SpecId::OSAKA => "OSAKA",
            SpecId::AMSTERDAM => "AMSTERDAM",
        }
    }
}

/// Key of a program in the cache.
#[derive(Clone, Copy, Debug, PartialEq, Eq, Structural)]
pub struct RuntimeCacheKey {
    /// Hash of the bytecode.
    pub code_hash: B256,
    /// Hardfork the program is compiled for.
    pub spec_id: SpecId,
}

/// A key flattened to integers, the form in which the hash tables hold it.
pub type RawKey = (u128, u128, u8);

impl RuntimeCacheKey {
    /// The key flattened to integers.
    pub open spec fn spec_raw(self) -> RawKey {
        (self.code_hash.hi, self.code_hash.lo, self.spec_id.spec_rank())
    }

    /// The key flattened to integers.
    pub fn raw(&self) -> (r: RawKey)
        ensures
            r == self.spec_raw(),
            r.2 < 15,
    {
        (self.code_hash.hi, self.code_hash.lo, self.spec_id.rank())
    }

    /// The key that flattens to `raw`, if there is one.
    pub fn from_raw(raw: RawKey) -> (r: Option<RuntimeCacheKey>)
        ensures
            r is Some <==> raw.2 < 15,
            r matches Some(key) ==> key.spec_raw() == raw,
    {
        match SpecId::from_rank(raw.2) {
            Some(spec_id) => Some(
                RuntimeCacheKey { code_hash: B256 { hi: raw.0, lo: raw.1 }, spec_id },
            ),
            None => None,
        }
    }
}

/// Two keys that flatten to the same integers are the same key.
pub proof fn lemma_raw_injective(a: RuntimeCacheKey, b: RuntimeCacheKey)
    requires
        a.spec_raw() == b.spec_raw(),
    ensures
        a == b,
{
}

/// The key that flattens to `raw`.
pub open spec fn key_of_raw(raw: RawKey) -> RuntimeCacheKey {
    choose|key: RuntimeCacheKey| key.spec_raw() == raw
}

/// Every triple of integers whose last component is a hardfork's position is a flattened key.
pub proof fn lemma_raw_onto(raw: RawKey)
    requires
        raw.2 < 15,
    ensures
        key_of_raw(raw).spec_raw() == raw,
{
    let rank = raw.2;
    let spec_id = if rank == 0 {
        SpecId::FRONTIER
    } else if rank == 1 {
        SpecId::HOMESTEAD
    } else if rank == 2 {
        SpecId::TANGERINE
    } else if rank == 3 {
        SpecId::SPURIOUS_DRAGON
    } else if rank == 4 {
        SpecId::BYZANTIUM
    } else if rank == 5 {
        SpecId::PETERSBURG
    } else if rank == 6 {
        SpecId::ISTANBUL
    } else if rank == 7 {
        SpecId::BERLIN
    } else if rank == 8 {
        SpecId::LONDON
    } else if rank == 9 {
        SpecId::MERGE
    } else if rank == 10 {
        SpecId::SHANGHAI
    } else if rank == 11 {
        SpecId::CANCUN
    } else if rank == 12 {
        SpecId::PRAGUE
    } else if rank == 13 {
        SpecId::OSAKA
    } else {
        SpecId::AMSTERDAM
    };
    let key = RuntimeCacheKey { code_hash: B256 { hi: raw.0, lo: raw.1 }, spec_id };
    assert(key.spec_raw() == raw);
}

/// The lower-case hexadecimal digit of value `d`.
pub open spec fn hex_digit(d: int) -> char
    recommends
        0 <= d < 16,
{
    if d < 10 {
        ('0' as int + d) as char
    } else {
        ('a' as int + (d - 10)) as char
    }
}

/// The last `width` hexadecimal digits of `value`, most significant first.
pub open spec fn hex_digits(value: nat, width: nat) -> Seq<char>
    decreases width,
{
    if width == 0 {
        Seq::empty()
    } else {
        hex_digits(value / 16, (width - 1) as nat).push(hex_digit((value % 16) as int))
    }
}

/// The hexadecimal digits of a hash, two for each byte.
pub open spec fn hash_digits(hash: B256) -> Seq<char> {
    hex_digits(hash.hi as nat, 32) + hex_digits(hash.lo as nat, 32)
}

/// `alloy_primitives::FixedBytes`, formatted with `{:x}`: two lower-case hexadecimal digits for
/// each of the hash's thirty-two bytes, in order, with no prefix.
#[verifier::external_body]
fn format_hash(hash: B256) -> (s: String)
    ensures
        s@ == hash_digits(hash),
{
    let mut bytes = [0u8; 32];
    bytes[..16].copy_from_slice(&hash.hi.to_be_bytes());
    bytes[16..].copy_from_slice(&hash.lo.to_be_bytes());
    format!("{:x}", alloy_primitives::B256::from(bytes))
}

/// The symbol under which a program is compiled: a prefix, the hash and the hardfork, joined by
/// underscores.
pub open spec fn spec_symbol_name(prefix: Seq<char>, key: RuntimeCacheKey) -> Seq<char> {
    prefix + "_"@ + hash_digits(key.code_hash) + "_"@ + key.spec_id.spec_name()
}

/// The symbol under which a program is compiled.
pub fn symbol_name(prefix: &str, key: RuntimeCacheKey) -> (s: String)
    ensures
        s@ == spec_symbol_name(prefix@, key),
{
    let hash = format_hash(key.code_hash);
    let mut s = String::from_str(prefix);
    s.append("_");
    s.append(hash.as_str());
    s.append("_");
    s.append(key.spec_id.name());
    s
}

/// Hashes are ordered as the numbers that their bytes spell.
pub proof fn law_hashes_are_ordered_as_numbers(a: B256, b: B256)
    ensures
        a.spec_less(b) <==> a.hi * 0x1_0000_0000_0000_0000_0000_0000_0000_0000 + a.lo < b.hi
            * 0x1_0000_0000_0000_0000_0000_0000_0000_0000 + b.lo,
{
}

/// Sixteen to the given power.
spec fn pow16(n: nat) -> nat
    decreases n,
{
    if n == 0 {
        1
    } else {
        16 * pow16((n - 1) as nat)
    }
}

/// Digits spell their number, and as many of them as are asked for.
proof fn lemma_hex_digits(a: nat, b: nat, width: nat)
    ensures
        hex_digits(a, width).len() == width,
        hex_digits(b, width).len() == width,
        a < pow16(width) && b < pow16(width) && hex_digits(a, width) == hex_digits(b, width) ==> a
            == b,
    decreases width,
{
    if width > 0 {
        let less = (width - 1) as nat;
        lemma_hex_digits(a / 16, b / 16, less);
        let x = hex_digits(a, width);
        let y = hex_digits(b, width);
        if a < pow16(width) && b < pow16(width) && x == y {
            assert(x.last() == y.last());
            assert(hex_digit((a % 16) as int) == hex_digit((b % 16) as int));
            assert(a % 16 == b % 16);
            assert(x.drop_last() =~= hex_digits(a / 16, less));
            assert(y.drop_last() =~= hex_digits(b / 16, less));
        }
    }
}

/// How the name of a hardfork begins, and how long it is.
spec fn initial(spec_id: SpecId) -> (char, nat) {
    match spec_id {
        SpecId::FRONTIER => ('F', 8),
        SpecId::HOMESTEAD => ('H', 9),
        SpecId::TANGERINE => ('T', 9),
        SpecId::SPURIOUS_DRAGON => ('S', 15),
        SpecId::BYZANTIUM => ('B', 9),
        SpecId::PETERSBURG => ('P', 10),
        SpecId::ISTANBUL => ('I', 8),
        SpecId::BERLIN => ('B', 6),
        SpecId::LONDON => ('L', 6),
        SpecId::MERGE => ('M', 5),
        SpecId::SHANGHAI => ('S', 8),
        SpecId::CANCUN => ('C', 6),
        SpecId::PRAGUE => ('P', 6),
        SpecId::OSAKA => ('O', 5),
        SpecId::AMSTERDAM => ('A', 9),
    }
}

/// A name begins so, and is that long.
proof fn lemma_initial(spec_id: SpecId)
    ensures
        spec_id.spec_name().len() == initial(spec_id).1,
        spec_id.spec_name()[0] == initial(spec_id).0,
{
    reveal_strlit("FRONTIER");
    reveal_strlit("HOMESTEAD");
    reveal_strlit("TANGERINE");
    reveal_strlit("SPURIOUS_DRAGON");
    reveal_strlit("BYZANTIUM");
    reveal_strlit("PETERSBURG");
    reveal_strlit("ISTANBUL");
    reveal_strlit("BERLIN");
    reveal_strlit("LONDON");
    reveal_strlit("MERGE");
    reveal_strlit("SHANGHAI");
    reveal_strlit("CANCUN");
    reveal_strlit("PRAGUE");
    reveal_strlit("OSAKA");
    reveal_strlit("AMSTERDAM");
}

/// No two hardforks have the same name.
proof fn lemma_names_differ(a: SpecId, b: SpecId)
    requires
        a.spec_name() == b.spec_name(),
    ensures
        a == b,
{
    lemma_initial(a);
    lemma_initial(b);
    assert(a.spec_name()[0] == b.spec_name()[0]);
    assert(a.spec_name().len() == b.spec_name().len());
}

/// No two programs are compiled under the same symbol: the symbol tells the prefix apart from the
/// rest, and the rest spells the whole key.
pub proof fn law_symbols_tell_programs_apart(
    prefix: Seq<char>,
    a: RuntimeCacheKey,
    b: RuntimeCacheKey,
)
    requires
        spec_symbol_name(prefix, a) == spec_symbol_name(prefix, b),
    ensures
        a == b,
        spec_symbol_name(prefix, a).take(prefix.len() as int) == prefix,
{
    reveal_strlit("_");
    let s = spec_symbol_name(prefix, a);
    let t = spec_symbol_name(prefix, b);
    let n = prefix.len() as int + 1;
    lemma_hex_digits(a.code_hash.hi as nat, b.code_hash.hi as nat, 32);
    lemma_hex_digits(a.code_hash.lo as nat, b.code_hash.lo as nat, 32);
    assert(pow16(32) == 0x1_0000_0000_0000_0000_0000_0000_0000_0000) by {
        reveal_with_fuel(pow16, 33);
    }
    assert(s.subrange(n, n + 32) =~= hex_digits(a.code_hash.hi as nat, 32));
    assert(t.subrange(n, n + 32) =~= hex_digits(b.code_hash.hi as nat, 32));
    assert(s.subrange(n + 32, n + 64) =~= hex_digits(a.code_hash.lo as nat, 32));
    assert(t.subrange(n + 32, n + 64) =~= hex_digits(b.code_hash.lo as nat, 32));
    assert(s.skip(n + 65) =~= a.spec_id.spec_name());
    assert(t.skip(n + 65) =~= b.spec_id.spec_name());
    lemma_names_differ(a.spec_id, b.spec_id);
    assert(s.take(prefix.len() as int) =~= prefix);
}

} // verus!
