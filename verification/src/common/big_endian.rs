//! Unsigned numbers in network byte order.

use vstd::prelude::*;

verus! {

/// The value of a run of bytes, most significant byte first.
pub open spec fn be_value(s: Seq<u8>) -> nat
    decreases s.len(),
{
    if s.len() == 0 {
        0
    } else {
        be_value(s.drop_last()) * 256 + s.last() as nat
    }
}

/// The lowest `width` bytes of a number, most significant byte first.
pub open spec fn be_bytes(n: nat, width: nat) -> Seq<u8>
    decreases width,
{
    if width == 0 {
        Seq::empty()
    } else {
        be_bytes(n / 256, (width - 1) as nat).push((n % 256) as u8)
    }
}

/// How many values `width` bytes can take.
pub open spec fn be_limit(width: nat) -> nat
    decreases width,
{
    if width == 0 {
        1
    } else {
        256 * be_limit((width - 1) as nat)
    }
}

pub proof fn be_limits()
    ensures
        be_limit(1) == 0x100,
        be_limit(2) == 0x1_0000,
        be_limit(4) == 0x1_0000_0000,
        be_limit(8) == 0x1_0000_0000_0000_0000,
{
    reveal_with_fuel(be_limit, 9);
}

pub proof fn be_bytes_len(n: nat, width: nat)
    ensures
        be_bytes(n, width).len() == width,
    decreases width,
{
    if width > 0 {
        be_bytes_len(n / 256, (width - 1) as nat);
    }
}

/// A number that fits is what its bytes stand for.
pub proof fn value_of_bytes(n: nat, width: nat)
    requires
        n < be_limit(width),
    ensures
        be_value(be_bytes(n, width)) == n,
    decreases width,
{
    if width > 0 {
        let head = be_bytes(n / 256, (width - 1) as nat);
        value_of_bytes(n / 256, (width - 1) as nat);
        assert(be_bytes(n, width).drop_last() =~= head);
    }
}

/// A run of bytes is what stands for its value.
pub proof fn bytes_of_value(s: Seq<u8>)
    ensures
        be_bytes(be_value(s), s.len()) == s,
        be_value(s) < be_limit(s.len()),
    decreases s.len(),
{
    if s.len() > 0 {
        bytes_of_value(s.drop_last());
        let v = be_value(s.drop_last());
        assert((v * 256 + s.last() as nat) / 256 == v);
        assert((v * 256 + s.last() as nat) % 256 == s.last() as nat);
        assert(be_bytes(be_value(s), s.len()) =~= s);
    }
}

/// Appends the `width` bytes of `n`.
pub fn push_be(out: &mut Vec<u8>, n: u64, width: usize)
    ensures
        final(out)@ == old(out)@ + be_bytes(n as nat, width as nat),
    decreases width,
{
    if width == 0 {
        proof {
            assert(out@ =~= old(out)@ + be_bytes(n as nat, 0));
        }
    } else {
        push_be(out, n / 256, width - 1);
        out.push((n % 256) as u8);
        proof {
            let head = be_bytes((n / 256) as nat, (width - 1) as nat);
            assert((n as nat) / 256 == (n / 256) as nat);
            assert((old(out)@ + head).push((n % 256) as u8) =~= old(out)@ + head.push(
                (n % 256) as u8,
            ));
        }
    }
}

/// The value of the `width` bytes from `start` on.
pub fn read_be(bytes: &[u8], start: usize, width: usize) -> (n: u64)
    requires
        width <= 8,
        start + width <= bytes@.len(),
    ensures
        n == be_value(bytes@.subrange(start as int, start + width)),
{
    let len: usize = bytes.len();
    let mut n: u64 = 0;
    let mut i: usize = 0;
    proof {
        assert(bytes@.subrange(start as int, start as int) =~= Seq::<u8>::empty());
    }
    while i < width
        invariant
            i <= width <= 8,
            start + width <= len,
            len == bytes@.len(),
            n == be_value(bytes@.subrange(start as int, start + i)),
            n < be_limit(i as nat),
        decreases width - i,
    {
        let ghost done = bytes@.subrange(start as int, start + i);
        let ghost next = bytes@.subrange(start as int, start + i + 1);
        proof {
            assert(next.drop_last() =~= done);
            assert(next.last() == bytes@[start + i]);
            assert(be_limit((i + 1) as nat) == 256 * be_limit(i as nat));
            reveal_with_fuel(be_limit, 9);
            assert(be_limit(i as nat) <= be_limit(7));
        }
        n = n * 256 + bytes[start + i] as u64;
        i = i + 1;
    }
    n
}

/// A byte in front of others counts as often as those can take values.
proof fn value_with_front(s: Seq<u8>)
    requires
        s.len() > 0,
    ensures
        be_value(s) == s[0] * be_limit((s.len() - 1) as nat) + be_value(s.skip(1)),
    decreases s.len(),
{
    if s.len() == 1 {
        assert(s.drop_last() =~= Seq::<u8>::empty());
        assert(s.skip(1) =~= Seq::<u8>::empty());
        assert(s[0] * 1 == s[0]);
    } else {
        let head = s.drop_last();
        value_with_front(head);
        assert(head.skip(1) =~= s.skip(1).drop_last());
        let l = be_limit((head.len() - 1) as nat);
        let v = be_value(head.skip(1));
        assert((s[0] * l + v) * 256 == s[0] * (256 * l) + v * 256) by (nonlinear_arith);
    }
}

/// More bytes can take no fewer values.
proof fn limit_grows(a: nat, b: nat)
    requires
        a <= b,
    ensures
        1 <= be_limit(a) <= be_limit(b),
    decreases b,
{
    if a < b {
        limit_grows(a, (b - 1) as nat);
    } else if a > 0 {
        limit_grows((a - 1) as nat, (b - 1) as nat);
    }
}

/// The value of the last `i` bytes.
spec fn low_value(s: Seq<u8>, i: int) -> int {
    if i >= s.len() {
        be_value(s) as int
    } else {
        be_value(s.skip(s.len() - i)) as int
    }
}

/// The byte in front of the last `i` ones; zero where there is none.
spec fn byte_before(s: Seq<u8>, i: int) -> int {
    if i >= s.len() {
        0
    } else {
        s[s.len() - 1 - i] as int
    }
}

/// One byte more.
proof fn low_value_step(s: Seq<u8>, i: int)
    requires
        i >= 0,
    ensures
        low_value(s, i + 1) == byte_before(s, i) * be_limit(i as nat) + low_value(s, i),
        0 <= low_value(s, i) < be_limit(i as nat),
{
    if i >= s.len() {
        bytes_of_value(s);
        limit_grows(s.len(), i as nat);
        assert(0 * be_limit(i as nat) == 0);
    } else {
        let longer = s.skip(s.len() - i - 1);
        bytes_of_value(s.skip(s.len() - i));
        value_with_front(longer);
        assert(longer.skip(1) =~= s.skip(s.len() - i));
        assert(i + 1 == s.len() ==> longer =~= s);
    }
}

/// Whether the number `a` is at least the number `b`.
pub fn be_at_least(a: &[u8], b: &[u8]) -> (r: bool)
    ensures
        r == (be_value(a@) >= be_value(b@)),
{
    let la: usize = a.len();
    let lb: usize = b.len();
    let n: usize = if la > lb {
        la
    } else {
        lb
    };
    let mut r = true;
    let mut i: usize = 0;
    proof {
        assert(a@.skip(a@.len() as int) =~= Seq::<u8>::empty());
        assert(b@.skip(b@.len() as int) =~= Seq::<u8>::empty());
    }
    while i < n
        invariant
            i <= n,
            la == a@.len(),
            lb == b@.len(),
            n >= la,
            n >= lb,
            r == (low_value(a@, i as int) >= low_value(b@, i as int)),
        decreases n - i,
    {
        let x: u8 = if i < la {
            a[la - 1 - i]
        } else {
            0
        };
        let y: u8 = if i < lb {
            b[lb - 1 - i]
        } else {
            0
        };
        proof {
            low_value_step(a@, i as int);
            low_value_step(b@, i as int);
            let l = be_limit(i as nat) as int;
            let u = low_value(a@, i as int);
            let v = low_value(b@, i as int);
            assert(x > y ==> x * l + u > y * l + v) by (nonlinear_arith)
                requires
                    0 <= u < l,
                    0 <= v < l,
            ;
            assert(x < y ==> x * l + u < y * l + v) by (nonlinear_arith)
                requires
                    0 <= u < l,
                    0 <= v < l,
            ;
        }
        if x != y {
            r = x > y;
        }
        i = i + 1;
    }
    r
}

} // verus!
