//! Random version-4 UUIDs, as the daemon gives each permission request's
//! connection.
use vstd::prelude::*;
use crate::text::push_char;

verus! {

/// Lower-case hexadecimal digit of `d < 16`.
pub open spec fn hex_digit(d: int) -> char {
    if d < 10 {
        (d + 48) as char
    } else {
        (d + 87) as char
    }
}

/// `{:02x}` of a byte.
pub open spec fn hex2(b: u8) -> Seq<char> {
    seq![hex_digit(b as int / 16), hex_digit(b as int % 16)]
}

/// The bytes with the version (4) and variant (`10`) bits set.
pub open spec fn uuid_bytes(b: Seq<u8>) -> Seq<u8> {
    b.update(6, (b[6] & 0x0f) | 0x40).update(8, (b[8] & 0x3f) | 0x80)
}

/// Hex of bytes `lo..hi`.
pub open spec fn hex_run(b: Seq<u8>, lo: int, hi: int) -> Seq<char>
    decreases hi - lo,
{
    if lo >= hi {
        Seq::empty()
    } else {
        hex_run(b, lo, hi - 1) + hex2(b[hi - 1])
    }
}

/// The 8-4-4-4-12 text of a version-4 UUID made from 16 bytes.
pub open spec fn uuid_text(b: Seq<u8>) -> Seq<char> {
    let u = uuid_bytes(b);
    hex_run(u, 0, 4) + seq!['-'] + hex_run(u, 4, 6) + seq!['-'] + hex_run(u, 6, 8) + seq!['-']
        + hex_run(u, 8, 10) + seq!['-'] + hex_run(u, 10, 16)
}

fn hex_char(d: u8) -> (c: char)
    requires
        d < 16,
    ensures
        c == hex_digit(d as int),
{
    if d < 10 {
        (d + 48) as char
    } else {
        (d + 87) as char
    }
}

fn push_hex_run(s: &mut String, b: &[u8; 16], lo: usize, hi: usize)
    requires
        lo <= hi <= 16,
    ensures
        final(s)@ == old(s)@ + hex_run(b@, lo as int, hi as int),
{
    let mut i = lo;
    assert(hex_run(b@, lo as int, lo as int) =~= Seq::empty());
    while i < hi
        invariant
            lo <= i <= hi <= 16,
            s@ == old(s)@ + hex_run(b@, lo as int, i as int),
        decreases hi - i,
    {
        let x = b[i];
        push_char(s, hex_char(x / 16));
        push_char(s, hex_char(x % 16));
        assert(hex_run(b@, lo as int, i + 1) == hex_run(b@, lo as int, i as int) + hex2(b@[i as int]));
        i = i + 1;
    }
}

/// A version-4 UUID from 16 random bytes: the version and variant bits
/// are set and the bytes written as lower-case hex in groups 8-4-4-4-12.
pub fn generate_uuid(random: [u8; 16]) -> (r: String)
    ensures
        r@ == uuid_text(random@),
{
    let mut b = random;
    let b6 = (b[6] & 0x0f) | 0x40;
    b[6] = b6;
    let b8 = (b[8] & 0x3f) | 0x80;
    b[8] = b8;
    assert(b@ =~= uuid_bytes(random@));
    let mut r = String::new();
    push_hex_run(&mut r, &b, 0, 4);
    push_char(&mut r, '-');
    push_hex_run(&mut r, &b, 4, 6);
    push_char(&mut r, '-');
    push_hex_run(&mut r, &b, 6, 8);
    push_char(&mut r, '-');
    push_hex_run(&mut r, &b, 8, 10);
    push_char(&mut r, '-');
    push_hex_run(&mut r, &b, 10, 16);
    assert(r@ =~= uuid_text(random@));
    r
}

/// Every UUID made this way is 36 characters long, has its dashes at
/// positions 8, 13, 18 and 23, shows version `4` at position 14, and the
/// variant `8`, `9`, `a` or `b` at position 19, whatever the bytes.
pub proof fn uuid_is_version_4(random: Seq<u8>)
    requires
        random.len() == 16,
    ensures
        uuid_text(random).len() == 36,
        uuid_text(random)[8] == '-',
        uuid_text(random)[13] == '-',
        uuid_text(random)[18] == '-',
        uuid_text(random)[23] == '-',
        uuid_text(random)[14] == '4',
        uuid_text(random)[19] == '8' || uuid_text(random)[19] == '9' || uuid_text(random)[19] == 'a'
            || uuid_text(random)[19] == 'b',
{
    let u = uuid_bytes(random);
    reveal_with_fuel(hex_run, 7);
    let x6 = random[6];
    let x8 = random[8];
    assert(((x6 & 0x0f) | 0x40) / 16 == 4) by (bit_vector);
    assert(8 <= ((x8 & 0x3f) | 0x80) / 16 <= 11) by (bit_vector);
    assert(hex_run(u, 6, 8) == hex2(u[6]) + hex2(u[7])) by {
        assert(hex_run(u, 6, 6) =~= Seq::<char>::empty());
    }
    assert(hex_run(u, 8, 10) == hex2(u[8]) + hex2(u[9])) by {
        assert(hex_run(u, 8, 8) =~= Seq::<char>::empty());
    }
    assert(hex_run(u, 0, 4).len() == 8);
    assert(hex_run(u, 4, 6).len() == 4);
    assert(hex_run(u, 10, 16).len() == 12);
}

} // verus!
