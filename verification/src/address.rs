//! The account normalisation rule: a delegated payment address is reduced
//! to its bech32 stake address, anything else to the bech32 form of the
//! address itself.

use vstd::prelude::*;

use crate::digest::bech32_of;
use crate::digest::bech32_string;
use crate::digest::valid_hrp;
use crate::model::copy_bytes;

verus! {

/// The address type nibble: the high four bits of the header byte.
pub open spec fn addr_type(addr: Seq<u8>) -> u8 {
    (addr[0] / 16) as u8
}

/// The network nibble: the low four bits of the header byte.
pub open spec fn addr_net(addr: Seq<u8>) -> u8 {
    (addr[0] % 16) as u8
}

/// Whether the address is a payment address with a delegation hash: type
/// nibbles zero to three, 57 bytes (header, payment part, delegation
/// part).
pub open spec fn has_delegation(addr: Seq<u8>) -> bool {
    addr.len() == 57 && addr_type(addr) <= 3
}

/// The stake address carved out of a delegated payment address: a stake
/// header over the same network, followed by the 28-byte delegation part.
/// Types two and three delegate to a script.
pub open spec fn stake_address_of(addr: Seq<u8>) -> Seq<u8> {
    let header: u8 = if addr_type(addr) == 2 || addr_type(addr) == 3 {
        (0xf0 + addr_net(addr)) as u8
    } else {
        (0xe0 + addr_net(addr)) as u8
    };
    seq![header] + addr.skip(29)
}

/// Whether the address itself is a stake address: type nibbles fourteen or
/// fifteen.
pub open spec fn is_stake(addr: Seq<u8>) -> bool {
    addr.len() > 0 && (addr_type(addr) == 14 || addr_type(addr) == 15)
}

/// The human-readable part an address is rendered under: `stake` for stake
/// addresses, `addr` otherwise, with `_test` appended off mainnet.
pub open spec fn hrp_of(stake: bool, mainnet: bool) -> Seq<char> {
    if stake {
        if mainnet {
            "stake"@
        } else {
            "stake_test"@
        }
    } else {
        if mainnet {
            "addr"@
        } else {
            "addr_test"@
        }
    }
}

/// The canonical account identifier of an address: the bech32 stake
/// address of its delegation part when it has one, otherwise the bech32
/// form of the address itself.
pub open spec fn soa_of(addr: Seq<u8>) -> Seq<char> {
    if addr.len() == 0 {
        Seq::<char>::empty()
    } else if has_delegation(addr) {
        bech32_of(hrp_of(true, addr_net(addr) == 1), stake_address_of(addr))
    } else if is_stake(addr) {
        bech32_of(hrp_of(true, addr_net(addr) == 1), addr)
    } else {
        bech32_of(hrp_of(false, addr_net(addr) == 1), addr)
    }
}

/// Pick the rendering prefix.
fn hrp_str(stake: bool, mainnet: bool) -> (r: &'static str)
    ensures
        r@ == hrp_of(stake, mainnet),
        valid_hrp(r@),
{
    proof {
        reveal_strlit("stake");
        reveal_strlit("stake_test");
        reveal_strlit("addr");
        reveal_strlit("addr_test");
        assert(valid_hrp("stake"@)) by {
            assert(forall|i: int| 0 <= i < 5 ==> 33 <= #[trigger] "stake"@[i] as u32 <= 126);
            assert(forall|i: int| 0 <= i < 5 ==> !('A' <= #[trigger] "stake"@[i] <= 'Z'));
        }
        assert(valid_hrp("stake_test"@)) by {
            assert(forall|i: int|
                0 <= i < 10 ==> 33 <= #[trigger] "stake_test"@[i] as u32 <= 126);
            assert(forall|i: int| 0 <= i < 10 ==> !('A' <= #[trigger] "stake_test"@[i] <= 'Z'));
        }
        assert(valid_hrp("addr"@)) by {
            assert(forall|i: int| 0 <= i < 4 ==> 33 <= #[trigger] "addr"@[i] as u32 <= 126);
            assert(forall|i: int| 0 <= i < 4 ==> !('A' <= #[trigger] "addr"@[i] <= 'Z'));
        }
        assert(valid_hrp("addr_test"@)) by {
            assert(forall|i: int| 0 <= i < 9 ==> 33 <= #[trigger] "addr_test"@[i] as u32 <= 126);
            assert(forall|i: int| 0 <= i < 9 ==> !('A' <= #[trigger] "addr_test"@[i] <= 'Z'));
        }
    }
    if stake {
        if mainnet {
            "stake"
        } else {
            "stake_test"
        }
    } else {
        if mainnet {
            "addr"
        } else {
            "addr_test"
        }
    }
}

/// Normalise an address to its canonical account identifier.
pub fn stake_or_address(addr: &Vec<u8>) -> (r: String)
    ensures
        r@ == soa_of(addr@),
{
    if addr.len() == 0 {
        return String::new();
    }
    let header = addr[0];
    let ty = header / 16;
    let net = header % 16;
    let mainnet = net == 1;
    if addr.len() == 57 && ty <= 3 {
        let stake_header: u8 = if ty == 2 || ty == 3 {
            0xf0 + net
        } else {
            0xe0 + net
        };
        let mut stake_bytes: Vec<u8> = Vec::new();
        stake_bytes.push(stake_header);
        let mut i: usize = 29;
        while i < 57
            invariant
                addr@.len() == 57,
                29 <= i <= 57,
                stake_bytes@.len() == i - 28,
                stake_bytes@[0] == (if ty == 2 || ty == 3 {
                    (0xf0 + net) as u8
                } else {
                    (0xe0 + net) as u8
                }),
                ty == addr_type(addr@),
                net == addr_net(addr@),
                forall|j: int| 1 <= j < stake_bytes@.len() ==> stake_bytes@[j] == addr@[j + 28],
            decreases 57 - i,
        {
            stake_bytes.push(addr[i]);
            i += 1;
        }
        proof {
            assert(stake_bytes@ =~= stake_address_of(addr@));
        }
        bech32_string(hrp_str(true, mainnet), stake_bytes.as_slice())
    } else if ty == 14 || ty == 15 {
        bech32_string(hrp_str(true, mainnet), copy_bytes(addr).as_slice())
    } else {
        bech32_string(hrp_str(false, mainnet), copy_bytes(addr).as_slice())
    }
}

/// The bech32 form of an address itself, without the delegation
/// reduction: stake prefixes for stake addresses, payment prefixes for the
/// rest.
pub open spec fn addr_string_of(addr: Seq<u8>) -> Seq<char> {
    if addr.len() == 0 {
        Seq::<char>::empty()
    } else if is_stake(addr) {
        bech32_of(hrp_of(true, addr_net(addr) == 1), addr)
    } else {
        bech32_of(hrp_of(false, addr_net(addr) == 1), addr)
    }
}

/// Render an address in its own bech32 form.
pub fn address_string(addr: &Vec<u8>) -> (r: String)
    ensures
        r@ == addr_string_of(addr@),
{
    if addr.len() == 0 {
        return String::new();
    }
    let header = addr[0];
    let ty = header / 16;
    let mainnet = header % 16 == 1;
    if ty == 14 || ty == 15 {
        bech32_string(hrp_str(true, mainnet), copy_bytes(addr).as_slice())
    } else {
        bech32_string(hrp_str(false, mainnet), copy_bytes(addr).as_slice())
    }
}

} // verus!
