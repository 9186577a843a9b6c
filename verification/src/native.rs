//! What surrounds the native libraries: their file names, and which of their results are used.
use crate::text::chars_of;
use vstd::prelude::*;

verus! {

/// The families of systems that name their libraries differently.
#[derive(Debug, Clone, Copy, PartialEq, Eq, Structural)]
pub enum Platform {
    Windows,
    MacOs,
    Other,
}

/// The file name of a shared library.
pub open spec fn lib_name(base: Seq<char>, platform: Platform) -> Seq<char> {
    match platform {
        Platform::Windows => base + ".dll"@,
        Platform::MacOs => base + ".dylib"@,
        Platform::Other => base + ".so"@,
    }
}

/// The file name of a shared library.
pub fn platform_lib_name(base: &str, platform: Platform) -> (r: String)
    ensures
        r@ == lib_name(base@, platform),
{
    let mut out = base.to_owned();
    match platform {
        Platform::Windows => out.append(".dll"),
        Platform::MacOs => out.append(".dylib"),
        Platform::Other => out.append(".so"),
    }
    out
}

/// Whether a file that begins with these bytes is a Linux program or library, which Windows cannot
/// use.
pub fn is_elf_on_windows(magic: &[u8], platform: Platform) -> (r: bool)
    ensures
        r == (platform == Platform::Windows && magic@ == seq![0x7fu8, 0x45, 0x4c, 0x46]),
{
    let windows = match platform {
        Platform::Windows => true,
        _ => false,
    };
    let elf = magic.len() == 4 && magic[0] == 0x7f && magic[1] == 0x45 && magic[2] == 0x4c
        && magic[3] == 0x46;
    assert(elf == (magic@ =~= seq![0x7fu8, 0x45, 0x4c, 0x46]));
    windows && elf
}

/// The place of the next of `count` directories from which a library is loaded, where `tried` says
/// of the first ones whether it could be: the directories are tried in turn until the library is
/// loaded, and none is where the library is not wanted.
pub fn next_directory(tried: &Vec<bool>, count: usize, wanted: bool) -> (r: Option<usize>)
    ensures
        r == (if wanted && !tried@.contains(true) && tried@.len() < count {
            Some(tried@.len() as usize)
        } else {
            None
        }),
{
    let mut i: usize = 0;
    while i < tried.len()
        invariant
            i <= tried@.len(),
            forall|j: int| 0 <= j < i ==> !(#[trigger] tried@[j]),
        decreases tried.len() - i,
    {
        if tried[i] {
            assert(tried@[i as int]);
            return None;
        }
        i = i + 1;
    }
    if wanted && tried.len() < count {
        Some(tried.len())
    } else {
        None
    }
}

/// The length of a transport-stream packet.
pub const PACKET_LEN: usize = 188;

/// The number of packets whose first byte is looked at.
pub open spec fn packets_checked(len: nat) -> nat {
    if len / (PACKET_LEN as nat) < 10 {
        len / (PACKET_LEN as nat)
    } else {
        10
    }
}

/// The packet at place `i` begins with the synchronisation byte.
pub open spec fn is_synchronised(out: Seq<u8>, i: int) -> bool {
    i * PACKET_LEN < out.len() && out[i * PACKET_LEN] == 0x47
}

/// The first packets of a stream of `len` bytes begin with the synchronisation byte.
pub open spec fn is_transport_stream(out: Seq<u8>, len: nat) -> bool {
    forall|i: int| 0 <= i < packets_checked(len) ==> #[trigger] is_synchronised(out, i)
}

/// Whether the first packets of a stream of `len` bytes begin with the synchronisation byte.
pub fn looks_like_transport_stream(out: &[u8], len: usize) -> (r: bool)
    ensures
        r == is_transport_stream(out@, len as nat),
{
    let whole: usize = len / PACKET_LEN;
    let checked: usize = if whole < 10 {
        whole
    } else {
        10
    };
    let mut i: usize = 0;
    while i < checked
        invariant
            i <= checked <= 10,
            checked == packets_checked(len as nat),
            forall|j: int| 0 <= j < i ==> #[trigger] is_synchronised(out@, j),
        decreases checked - i,
    {
        let at: usize = i * PACKET_LEN;
        assert(at == (i as int) * PACKET_LEN);
        if at >= out.len() || out[at] != 0x47 {
            assert(!is_synchronised(out@, i as int));
            return false;
        }
        i = i + 1;
    }
    true
}

/// The decrypted form of a segment that is used: what the native library gave back for a segment
/// of one packet at least, if that is a transport stream.
pub open spec fn accepted(data: Seq<u8>, out: Option<Seq<u8>>) -> Option<Seq<u8>> {
    match out {
        Some(o) => if data.len() >= PACKET_LEN && is_transport_stream(o, data.len()) {
            Some(o)
        } else {
            None
        },
        None => None,
    }
}

/// The bytes of an optional list.
pub open spec fn opt_bytes(b: Option<Vec<u8>>) -> Option<Seq<u8>> {
    match b {
        Some(v) => Some(v@),
        None => None,
    }
}

/// The decryption of transport-stream segments.
#[derive(Debug, Clone, Copy)]
pub struct TsDecryptor;

impl TsDecryptor {
    /// Whether a segment is handed to the native library.
    pub fn wants(data: &[u8]) -> (r: bool)
        ensures
            r == (data@.len() >= PACKET_LEN),
    {
        data.len() >= PACKET_LEN
    }

    /// The decrypted form of a segment that is used, where `out` is what the native library gave
    /// back.
    pub fn decrypt(data: &[u8], out: Option<Vec<u8>>) -> (r: Option<Vec<u8>>)
        ensures
            opt_bytes(r) == accepted(data@, opt_bytes(out)),
    {
        if data.len() < PACKET_LEN {
            return None;
        }
        match out {
            Some(o) => if looks_like_transport_stream(o.as_slice(), data.len()) {
                Some(o)
            } else {
                None
            },
            None => None,
        }
    }
}

/// The signing of stream addresses.
#[derive(Debug, Clone, Copy)]
pub struct JstvSigner;

impl JstvSigner {
    /// Whether a channel id can be handed to the native library, which ends it at a zero
    /// character.
    pub fn accepts(channel_id: &str) -> (r: bool)
        ensures
            r == !channel_id@.contains('\0'),
    {
        let t = chars_of(channel_id);
        let mut i: usize = 0;
        while i < t.len()
            invariant
                i <= t@.len(),
                t@ == channel_id@,
                forall|j: int| 0 <= j < i ==> t@[j] != '\0',
            decreases t.len() - i,
        {
            if t[i] == '\0' {
                return false;
            }
            i = i + 1;
        }
        true
    }

    /// The signed address that is used, where `raw` is what the native library gave back: an empty
    /// one is none.
    pub fn get_signed_url(raw: Option<String>) -> (r: Option<String>)
        ensures
            r == (match raw {
                Some(s) => if s@.len() == 0 {
                    None
                } else {
                    Some(s)
                },
                None => None,
            }),
    {
        match raw {
            Some(s) => if s.as_str().is_empty() {
                None
            } else {
                Some(s)
            },
            None => None,
        }
    }
}

// ─── Laws ────────────────────────────────────────────────────────────────────

/// A decrypted segment that is used begins with the synchronisation byte.
pub proof fn law_accepted_segments_are_synchronised(data: Seq<u8>, out: Option<Seq<u8>>)
    ensures
        accepted(data, out) matches Some(o) ==> o.len() > 0 && o[0] == 0x47,
{
    if accepted(data, out) is Some {
        let o = out->0;
        assert(packets_checked(data.len()) >= 1) by {
            assert(data.len() / (PACKET_LEN as nat) >= 1) by (nonlinear_arith)
                requires
                    data.len() >= 188,
                    PACKET_LEN == 188,
            ;
        }
        assert(is_synchronised(o, 0));
    }
}

/// The byte `0x47` stands in front of the packet at place `k`, of 188 bytes each.
pub open spec fn is_marked(out: Seq<u8>, k: int) -> bool {
    0 <= 188 * k < out.len() && out[188 * k] == 0x47
}

/// What the native library gave back for a segment of one packet at least is used where each of its
/// first packets, ten at most, begins with the synchronisation byte, and not where one does not.
pub proof fn law_decryption_is_used_where_packets_are_whole(
    data: Seq<u8>,
    decrypted: Option<Seq<u8>>,
    i: int,
)
    ensures
        decrypted is None || data.len() < 188 ==> accepted(data, decrypted) is None,
        decrypted matches Some(out) && data.len() >= 188 && (forall|k: int|
            0 <= k < 10 && 188 * (k + 1) <= data.len() ==> #[trigger] is_marked(out, k))
            ==> accepted(data, decrypted) == decrypted,
        decrypted matches Some(out) && 0 <= i < 10 && 188 * (i + 1) <= data.len() && !is_marked(
            out,
            i,
        ) ==> accepted(data, decrypted) is None,
{
    if let Some(out) = decrypted {
        let n = data.len();
        let whole = n / 188;
        assert(whole * 188 <= n && n < (whole + 1) * 188) by (nonlinear_arith)
            requires
                whole == n / 188,
        ;
        if n >= 188 && accepted(data, decrypted) != decrypted {
            let k = choose|k: int| 0 <= k < packets_checked(n) && !#[trigger] is_synchronised(out, k);
            assert(188 * (k + 1) <= n) by (nonlinear_arith)
                requires
                    k + 1 <= whole,
                    whole * 188 <= n,
            ;
            assert(k * PACKET_LEN == 188 * k);
            assert(!is_marked(out, k));
        }
        if 0 <= i < 10 && 188 * (i + 1) <= n && !is_marked(out, i) {
            assert(i < whole) by (nonlinear_arith)
                requires
                    188 * (i + 1) <= n,
                    n < (whole + 1) * 188,
            ;
            assert(i < packets_checked(n));
            assert(i * PACKET_LEN == 188 * i);
            assert(!is_synchronised(out, i));
        }
    }
}

/// The name of a library is its base with the suffix of the system behind it, and the three systems
/// tell it apart.
pub proof fn law_library_names_tell_systems_apart(base: Seq<char>)
    ensures
        lib_name(base, Platform::Windows) == base + ".dll"@,
        lib_name(base, Platform::MacOs) == base + ".dylib"@,
        lib_name(base, Platform::Other) == base + ".so"@,
        lib_name(base, Platform::Windows) != lib_name(base, Platform::Other),
        lib_name(base, Platform::Windows) != lib_name(base, Platform::MacOs),
        lib_name(base, Platform::MacOs) != lib_name(base, Platform::Other),
{
    reveal_strlit(".dll");
    reveal_strlit(".dylib");
    reveal_strlit(".so");
    assert(lib_name(base, Platform::Windows).len() == base.len() + 4);
    assert(lib_name(base, Platform::MacOs).len() == base.len() + 6);
    assert(lib_name(base, Platform::Other).len() == base.len() + 3);
}

} // verus!
