use vstd::prelude::*;

verus! {

/// Largest payload of one message, in bytes.
pub const MAX_MESSAGE: usize = 0x10000;

/// Bytes of the length header in front of each message.
pub const HEADER_LEN: usize = 4;

/// The four bytes of `n`, most significant first.
pub open spec fn header_spec(n: nat) -> Seq<u8> {
    seq![
        (n / 0x100_0000 % 0x100) as u8,
        (n / 0x1_0000 % 0x100) as u8,
        (n / 0x100 % 0x100) as u8,
        (n % 0x100) as u8,
    ]
}

/// The number that four bytes give, most significant first.
pub open spec fn header_value(h: Seq<u8>) -> nat {
    (h[0] as nat) * 0x100_0000 + (h[1] as nat) * 0x1_0000 + (h[2] as nat) * 0x100 + (h[3] as nat)
}

/// Reading back a header gives the length it was written for.
pub proof fn lemma_header_round_trip(n: nat)
    requires
        n < 0x1_0000_0000,
    ensures
        header_spec(n).len() == HEADER_LEN,
        header_value(header_spec(n)) == n,
{
    let h = header_spec(n);
    assert(h[0] as nat == n / 0x100_0000 % 0x100);
    assert(h[1] as nat == n / 0x1_0000 % 0x100);
    assert(h[2] as nat == n / 0x100 % 0x100);
    assert(h[3] as nat == n % 0x100);
    assert((n / 0x100_0000 % 0x100) * 0x100_0000 + (n / 0x1_0000 % 0x100) * 0x1_0000 + (n / 0x100 % 0x100) * 0x100
        + n % 0x100 == n) by (nonlinear_arith)
        requires
            n < 0x1_0000_0000,
    {
        vstd::arithmetic::div_mod::lemma_fundamental_div_mod(n as int, 0x100);
        vstd::arithmetic::div_mod::lemma_fundamental_div_mod(n as int / 0x100, 0x100);
        vstd::arithmetic::div_mod::lemma_fundamental_div_mod(n as int / 0x1_0000, 0x100);
        vstd::arithmetic::div_mod::lemma_div_denominator(n as int, 0x100, 0x100);
        vstd::arithmetic::div_mod::lemma_div_denominator(n as int, 0x1_0000, 0x100);
    }
}

/// A message as it goes on the wire: the payload's length in four bytes,
/// most significant first, then the payload. Nothing where the payload is
/// longer than `MAX_MESSAGE`.
pub fn frame(payload: &Vec<u8>) -> (r: Option<Vec<u8>>)
    ensures
        payload@.len() <= MAX_MESSAGE ==> r.is_some() && r.unwrap()@ == header_spec(payload@.len()) + payload@,
        payload@.len() > MAX_MESSAGE ==> r.is_none(),
{
    let n = payload.len();
    if n > MAX_MESSAGE {
        return None;
    }
    let mut out: Vec<u8> = vec![
        (n / 0x100_0000 % 0x100) as u8,
        (n / 0x1_0000 % 0x100) as u8,
        (n / 0x100 % 0x100) as u8,
        (n % 0x100) as u8,
    ];
    let mut i: usize = 0;
    while i < payload.len()
        invariant
            i <= payload@.len(),
            n == payload@.len(),
            out@ == header_spec(n as nat) + payload@.subrange(0, i as int),
        decreases payload@.len() - i,
    {
        out.push(payload[i]);
        assert(payload@.subrange(0, i + 1) =~= payload@.subrange(0, i as int).push(payload@[i as int]));
        i = i + 1;
    }
    assert(payload@.subrange(0, n as int) =~= payload@);
    Some(out)
}

/// The payload length that a message header announces. Nothing where fewer
/// than four bytes are given or the length exceeds `MAX_MESSAGE`.
pub fn frame_length(header: &[u8]) -> (r: Option<usize>)
    ensures
        header@.len() < HEADER_LEN ==> r.is_none(),
        header@.len() >= HEADER_LEN && header_value(header@) <= MAX_MESSAGE ==> r == Some(
            header_value(header@) as usize,
        ),
        header@.len() >= HEADER_LEN && header_value(header@) > MAX_MESSAGE ==> r.is_none(),
{
    if header.len() < HEADER_LEN {
        return None;
    }
    let n: u64 = (header[0] as u64) * 0x100_0000 + (header[1] as u64) * 0x1_0000 + (header[2] as u64) * 0x100
        + (header[3] as u64);
    if n > MAX_MESSAGE as u64 {
        None
    } else {
        Some(n as usize)
    }
}

} // verus!
