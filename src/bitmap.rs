use vstd::prelude::*;
use crate::text::{ascii_bytes, ascii_chars, ascii_to_string, decimal, lemma_decimal_ascii, push_ascii, push_decimal};

verus! {

/// Whether bit `k` (0 = least significant) of `b` is set.
pub open spec fn byte_bit(b: u8, k: int) -> bool {
    b & (1u8 << (k as u8)) != 0
}

/// Number of bytes needed to hold `len` bits.
pub open spec fn bytes_for(len: nat) -> nat {
    (len + 7) / 8
}

proof fn lemma_bit_or(b: u8, i: u8, k: u8)
    requires
        i < 8,
        k < 8,
    ensures
        (b | (1u8 << i)) & (1u8 << k) != 0 <==> (k == i || b & (1u8 << k) != 0),
{
    assert((b | (1u8 << i)) & (1u8 << k) != 0 <==> (k == i || b & (1u8 << k) != 0))
        by (bit_vector)
        requires
            i < 8,
            k < 8,
    ;
}

proof fn lemma_bit_and_not(b: u8, i: u8, k: u8)
    requires
        i < 8,
        k < 8,
    ensures
        (b & !(1u8 << i)) & (1u8 << k) != 0 <==> (k != i && b & (1u8 << k) != 0),
{
    assert((b & !(1u8 << i)) & (1u8 << k) != 0 <==> (k != i && b & (1u8 << k) != 0))
        by (bit_vector)
        requires
            i < 8,
            k < 8,
    ;
}

proof fn lemma_bit_consts(k: u8)
    requires
        k < 8,
    ensures
        0u8 & (1u8 << k) == 0,
        0xffu8 & (1u8 << k) != 0,
{
    assert(0u8 & (1u8 << k) == 0) by (bit_vector);
    assert(0xffu8 & (1u8 << k) != 0) by (bit_vector)
        requires
            k < 8,
    ;
}

/// Number of `true` entries in `s`.
pub open spec fn count_true(s: Seq<bool>) -> nat
    decreases s.len(),
{
    if s.len() == 0 {
        0
    } else {
        count_true(s.drop_last()) + if s.last() { 1nat } else { 0nat }
    }
}

/// The eight bits of `b`, least significant first.
pub open spec fn byte_bits(b: u8) -> Seq<bool> {
    Seq::new(8, |k: int| byte_bit(b, k))
}

/// All bits of `data`, eight per byte, least significant bit of each byte first.
pub open spec fn bits_of_bytes(data: Seq<u8>) -> Seq<bool> {
    Seq::new(8 * data.len(), |i: int| byte_bit(data[i / 8], i % 8))
}

proof fn lemma_count_true_append(a: Seq<bool>, b: Seq<bool>)
    ensures
        count_true(a + b) == count_true(a) + count_true(b),
    decreases b.len(),
{
    if b.len() == 0 {
        assert(a + b =~= a);
    } else {
        lemma_count_true_append(a, b.drop_last());
        assert((a + b).drop_last() =~= a + b.drop_last());
    }
}

proof fn lemma_count_true_none(s: Seq<bool>)
    requires
        forall|i: int| 0 <= i < s.len() ==> !s[i],
    ensures
        count_true(s) == 0,
    decreases s.len(),
{
    if s.len() > 0 {
        lemma_count_true_none(s.drop_last());
    }
}

proof fn lemma_count_true_le_len(s: Seq<bool>)
    ensures
        count_true(s) <= s.len(),
    decreases s.len(),
{
    if s.len() > 0 {
        lemma_count_true_le_len(s.drop_last());
    }
}

proof fn lemma_bits_of_bytes_push(data: Seq<u8>, j: int)
    requires
        0 <= j < data.len(),
    ensures
        bits_of_bytes(data.take(j + 1)) == bits_of_bytes(data.take(j)) + byte_bits(data[j]),
{
    assert(bits_of_bytes(data.take(j + 1)) =~= bits_of_bytes(data.take(j)) + byte_bits(data[j]));
}

/// The number of set bits of `b`.
fn byte_ones(b: u8) -> (r: u32)
    ensures
        r == count_true(byte_bits(b)),
        r <= 8,
{
    let mut c: u32 = 0;
    let mut k: u8 = 0;
    while k < 8
        invariant
            k <= 8,
            c == count_true(byte_bits(b).take(k as int)),
            c <= k,
        decreases 8 - k,
    {
        assert(byte_bits(b).take(k + 1).drop_last() =~= byte_bits(b).take(k as int));
        if b & (1u8 << k) != 0 {
            c = c + 1;
        }
        k = k + 1;
    }
    assert(byte_bits(b).take(8) =~= byte_bits(b));
    c
}

/// The character that shows one bit: `1` when set, `0` when clear.
pub open spec fn bit_digit(b: bool) -> u8 {
    if b { 49u8 } else { 48u8 }
}

/// The text that shows a bitmap with bits `bits`: its bits as digits, in
/// order, followed by its length in decimal.
pub open spec fn debug_text(bits: Seq<bool>) -> Seq<char> {
    ascii_chars(
        ascii_bytes("Bitmap { data: "@) + bits.map_values(|b: bool| bit_digit(b)) + ascii_bytes(
            ", len: "@,
        ) + decimal(bits.len()) + ascii_bytes(" }"@),
    )
}

proof fn lemma_bits_equal_bytes_equal(x: u8, y: u8)
    requires
        x & 1 == y & 1,
        x & 2 == y & 2,
        x & 4 == y & 4,
        x & 8 == y & 8,
        x & 16 == y & 16,
        x & 32 == y & 32,
        x & 64 == y & 64,
        x & 128 == y & 128,
    ensures
        x == y,
{
    assert(x == y) by (bit_vector)
        requires
            x & 1 == y & 1,
            x & 2 == y & 2,
            x & 4 == y & 4,
            x & 8 == y & 8,
            x & 16 == y & 16,
            x & 32 == y & 32,
            x & 64 == y & 64,
            x & 128 == y & 128,
    ;
}

proof fn lemma_bit_set_iff(x: u8, y: u8, k: u8)
    requires
        k < 8,
        (x & (1u8 << k) != 0) == (y & (1u8 << k) != 0),
    ensures
        x & (1u8 << k) == y & (1u8 << k),
{
    assert(x & (1u8 << k) == y & (1u8 << k)) by (bit_vector)
        requires
            k < 8,
            (x & (1u8 << k) != 0) == (y & (1u8 << k) != 0),
    ;
}

/// A fixed-length sequence of bits packed eight to a byte, least significant
/// bit first.
#[derive(Clone)]
pub struct Bitmap {
    pub data: Vec<u8>,
    pub len: usize,
}

impl View for Bitmap {
    type V = Seq<bool>;

    open spec fn view(&self) -> Seq<bool> {
        Seq::new(self.len as nat, |i: int| byte_bit(self.data@[i / 8], i % 8))
    }
}

impl Bitmap {
    /// The byte vector has exactly the bytes that `len` bits need, and every
    /// bit past `len` is clear, so that equal bit sequences have equal bytes.
    pub open spec fn wf(&self) -> bool {
        &&& self.data@.len() == bytes_for(self.len as nat)
        &&& forall|i: int|
            self.len <= i < 8 * self.data@.len() ==> !byte_bit(#[trigger] self.data@[i / 8], i % 8)
    }

    /// A bitmap of `len` bits, all clear.
    pub fn new_empty(len: usize) -> (r: Self)
        ensures
            r.wf(),
            r.len == len,
            r@ == Seq::new(len as nat, |i: int| false),
    {
        let n: usize = len / 8 + if len % 8 != 0 { 1 } else { 0 };
        let data = vec![0u8; n];
        let r = Self { data, len };
        assert forall|i: int| 0 <= i < 8 * r.data@.len() implies !byte_bit(#[trigger] r.data@[i / 8], i % 8) by {
            lemma_bit_consts((i % 8) as u8);
        }
        assert(r@ =~= Seq::new(len as nat, |i: int| false));
        r
    }

    /// A bitmap of `len` bits, all set.
    pub fn new_full(len: usize) -> (r: Self)
        ensures
            r.wf(),
            r.len == len,
            r@ == Seq::new(len as nat, |i: int| true),
    {
        let n: usize = len / 8 + if len % 8 != 0 { 1 } else { 0 };
        let mut data = vec![0xffu8; n];
        assert forall|i: int| 0 <= i < 8 * data@.len() implies byte_bit(#[trigger] data@[i / 8], i % 8) by {
            lemma_bit_consts((i % 8) as u8);
        }
        // Zero the bits of the last byte that lie past `len`.
        let remainder = len % 8;
        if remainder != 0 {
            let mut last_byte: u8 = 0xff;
            assert forall|k: int| 0 <= k < 8 implies byte_bit(last_byte, k) by {
                lemma_bit_consts(k as u8);
            }
            let bits_to_clear = 8 - remainder;
            let mut offset_from_end: usize = 0;
            while offset_from_end < bits_to_clear
                invariant
                    0 < remainder < 8,
                    bits_to_clear == 8 - remainder,
                    offset_from_end <= bits_to_clear,
                    forall|k: int| 0 <= k < 8 ==>
                        (byte_bit(last_byte, k) <==> k < 8 - offset_from_end),
                decreases bits_to_clear - offset_from_end,
            {
                let i = 7 - offset_from_end;
                let before = last_byte;
                last_byte = last_byte & !(1u8 << (i as u8));
                proof {
                    assert forall|k: int| 0 <= k < 8 implies
                        (byte_bit(last_byte, k) <==> k < 8 - (offset_from_end + 1)) by {
                        assert(byte_bit(before, k) <==> k < 8 - offset_from_end);
                        lemma_bit_and_not(before, i as u8, k as u8);
                    }
                }
                offset_from_end = offset_from_end + 1;
            }
            let ghost full = data@;
            data.set(n - 1, last_byte);
            assert forall|i: int| 0 <= i < 8 * data@.len() implies
                (byte_bit(#[trigger] data@[i / 8], i % 8) <==> i < len) by {
                if i / 8 != n - 1 {
                    assert(byte_bit(full[i / 8], i % 8));
                }
            }
        }
        let r = Self { data, len };
        assert(r@ =~= Seq::new(len as nat, |i: int| true));
        r
    }

    /// Whether bit `i` is set.
    pub fn get(&self, i: usize) -> (r: bool)
        requires
            self.wf(),
            i < self.len,
        ensures
            r == self@[i as int],
    {
        self.data[i / 8] & (1u8 << ((i % 8) as u8)) != 0
    }

    /// The number of bits.
    pub fn len(&self) -> (r: usize)
        ensures
            r == self.len,
            r == self@.len(),
    {
        self.len
    }

    /// The `len` bits that start at bit `start`, as a bitmap of their own.
    pub fn slice(&self, start: usize, len: usize) -> (r: Self)
        requires
            self.wf(),
            start + len <= self.len,
        ensures
            r.wf(),
            r.len == len,
            r@ == self@.subrange(start as int, start + len),
    {
        let n: usize = len / 8 + if len % 8 != 0 { 1 } else { 0 };
        let mut data = vec![0u8; n];
        assert forall|k: int| 0 <= k < 8 * n implies !byte_bit(#[trigger] data@[k / 8], k % 8) by {
            lemma_bit_consts((k % 8) as u8);
        }
        let mut i: usize = 0;
        while i < len
            invariant
                self.wf(),
                start + len <= self.len,
                n == bytes_for(len as nat),
                data@.len() == n,
                i <= len,
                forall|k: int| 0 <= k < 8 * n ==>
                    (byte_bit(#[trigger] data@[k / 8], k % 8) <==> (k < i && self@[start + k])),
            decreases len - i,
        {
            if self.get(start + i) {
                let j = i / 8;
                let old_byte = data[j];
                data.set(j, old_byte | (1u8 << ((i % 8) as u8)));
                proof {
                    assert forall|k: int| 0 <= k < 8 * n implies
                        (byte_bit(#[trigger] data@[k / 8], k % 8) <==> (k < i + 1 && self@[start + k])) by {
                        if k / 8 == j as int {
                            lemma_bit_or(old_byte, (i % 8) as u8, (k % 8) as u8);
                        }
                    }
                }
            } else {
                assert forall|k: int| 0 <= k < 8 * n implies
                    (byte_bit(#[trigger] data@[k / 8], k % 8) <==> (k < i + 1 && self@[start + k])) by {
                    if k == i as int {
                        assert(!self@[start + k]);
                    }
                }
            }
            i = i + 1;
        }
        let r = Self { data, len };
        assert(r@ =~= self@.subrange(start as int, start + len));
        r
    }

    /// A bitmap whose bit `i` is `bits[i]`.
    pub fn from_bools(bits: &[bool]) -> (r: Self)
        ensures
            r.wf(),
            r@ == bits@,
    {
        let mut bitmap = Self::new_empty(bits.len());
        let mut i: usize = 0;
        while i < bits.len()
            invariant
                bitmap.wf(),
                bitmap.len == bits@.len(),
                i <= bits@.len(),
                forall|k: int| 0 <= k < bits@.len() ==> bitmap@[k] == (k < i && bits@[k]),
            decreases bits@.len() - i,
        {
            if bits[i] {
                bitmap.set(i);
            }
            i = i + 1;
        }
        assert(bitmap@ =~= bits@);
        bitmap
    }

    /// The number of set bits.
    pub fn count_ones(&self) -> (r: usize)
        requires
            self.wf(),
        ensures
            r == count_true(self@),
    {
        let ghost all = bits_of_bytes(self.data@);
        proof {
            assert(all =~= self@ + all.skip(self.len as int));
            lemma_count_true_append(self@, all.skip(self.len as int));
            lemma_count_true_none(all.skip(self.len as int));
            lemma_count_true_le_len(self@);
        }
        let mut total: usize = 0;
        let mut j: usize = 0;
        while j < self.data.len()
            invariant
                self.wf(),
                all == bits_of_bytes(self.data@),
                count_true(all) == count_true(self@),
                count_true(self@) <= self.len,
                j <= self.data@.len(),
                total == count_true(bits_of_bytes(self.data@.take(j as int))),
            decreases self.data@.len() - j,
        {
            let ones = byte_ones(self.data[j]);
            proof {
                lemma_bits_of_bytes_push(self.data@, j as int);
                lemma_count_true_append(
                    bits_of_bytes(self.data@.take(j as int)),
                    byte_bits(self.data@[j as int]),
                );
                let rest = self.data@.skip(j + 1);
                assert(self.data@ =~= self.data@.take(j + 1) + rest);
                assert(all =~= bits_of_bytes(self.data@.take(j + 1)) + bits_of_bytes(rest));
                lemma_count_true_append(bits_of_bytes(self.data@.take(j + 1)), bits_of_bytes(rest));
            }
            total = total + ones as usize;
            j = j + 1;
        }
        assert(self.data@.take(j as int) =~= self.data@);
        total
    }

    /// The number of clear bits.
    pub fn count_zeros(&self) -> (r: usize)
        requires
            self.wf(),
        ensures
            r == self.len - count_true(self@),
    {
        proof {
            lemma_count_true_le_len(self@);
        }
        self.len - self.count_ones()
    }

    /// The bits as a text, `Bitmap { data: <digits>, len: <len> }`, with one
    /// digit per bit in order.
    pub fn to_debug_string(&self) -> (r: String)
        requires
            self.wf(),
        ensures
            r@ == debug_text(self@),
    {
        let mut out: Vec<u8> = Vec::new();
        proof {
            reveal_strlit("Bitmap { data: ");
        }
        push_ascii(&mut out, "Bitmap { data: ");
        let ghost prefix = out@;
        let mut i: usize = 0;
        while i < self.len
            invariant
                self.wf(),
                i <= self.len,
                out@ == prefix + self@.take(i as int).map_values(|b: bool| bit_digit(b)),
            decreases self.len - i,
        {
            let d: u8 = if self.get(i) { 49 } else { 48 };
            out.push(d);
            i = i + 1;
            assert(out@ =~= prefix + self@.take(i as int).map_values(|b: bool| bit_digit(b)));
        }
        assert(self@.take(i as int) =~= self@);
        proof {
            reveal_strlit(", len: ");
        }
        push_ascii(&mut out, ", len: ");
        push_decimal(&mut out, self.len);
        proof {
            reveal_strlit(" }");
        }
        push_ascii(&mut out, " }");
        proof {
            lemma_decimal_ascii(self.len as nat);
            assert(out@ =~= ascii_bytes("Bitmap { data: "@) + self@.map_values(|b: bool| bit_digit(b))
                + ascii_bytes(", len: "@) + decimal(self@.len()) + ascii_bytes(" }"@));
            assert forall|k: int| 0 <= k < out@.len() implies #[trigger] out@[k] < 128 by {
                let a = ascii_bytes("Bitmap { data: "@).len();
                let b = a + self.len;
                let c = b + ascii_bytes(", len: "@).len();
                let d = c + decimal(self.len as nat).len();
                if k < a {
                } else if k < b {
                } else if k < c {
                } else if k < d {
                    assert(decimal(self.len as nat)[k - c] < 128);
                }
            }
        }
        ascii_to_string(out)
    }

    /// Sets bit `i`.
    pub fn set(&mut self, i: usize)
        requires
            old(self).wf(),
            i < old(self).len,
        ensures
            final(self).wf(),
            final(self).len == old(self).len,
            final(self)@ == old(self)@.update(i as int, true),
    {
        let j = i / 8;
        let old_byte = self.data[j];
        let new_byte = old_byte | (1u8 << ((i % 8) as u8));
        self.data.set(j, new_byte);
        proof {
            assert forall|k: int| 0 <= k < 8 * self.data@.len() implies
                byte_bit(#[trigger] self.data@[k / 8], k % 8) == (k == i || byte_bit(old(self).data@[k / 8], k % 8)) by {
                if k / 8 == j as int {
                    lemma_bit_or(old_byte, (i % 8) as u8, (k % 8) as u8);
                }
            }
            assert(self@ =~= old(self)@.update(i as int, true));
        }
    }

    /// Clears bit `i`.
    pub fn clear(&mut self, i: usize)
        requires
            old(self).wf(),
            i < old(self).len,
        ensures
            final(self).wf(),
            final(self).len == old(self).len,
            final(self)@ == old(self)@.update(i as int, false),
    {
        let j = i / 8;
        let old_byte = self.data[j];
        let new_byte = old_byte & !(1u8 << ((i % 8) as u8));
        self.data.set(j, new_byte);
        proof {
            assert forall|k: int| 0 <= k < 8 * self.data@.len() implies
                byte_bit(#[trigger] self.data@[k / 8], k % 8) == (k != i && byte_bit(old(self).data@[k / 8], k % 8)) by {
                if k / 8 == j as int {
                    lemma_bit_and_not(old_byte, (i % 8) as u8, (k % 8) as u8);
                }
            }
            assert(self@ =~= old(self)@.update(i as int, false));
        }
    }
}

impl PartialEq for Bitmap {
    fn eq(&self, other: &Bitmap) -> (r: bool) {
        if self.len != other.len || self.data.len() != other.data.len() {
            return false;
        }
        let mut j: usize = 0;
        while j < self.data.len()
            invariant
                self.data@.len() == other.data@.len(),
                j <= self.data@.len(),
                self.data@.take(j as int) == other.data@.take(j as int),
            decreases self.data@.len() - j,
        {
            if self.data[j] != other.data[j] {
                assert(self.data@[j as int] != other.data@[j as int]);
                return false;
            }
            j = j + 1;
            assert(self.data@.take(j as int) =~= other.data@.take(j as int));
        }
        assert(self.data@ =~= self.data@.take(j as int));
        assert(other.data@ =~= other.data@.take(j as int));
        true
    }
}

impl Eq for Bitmap {}


impl vstd::std_specs::cmp::PartialEqSpecImpl for Bitmap {
    open spec fn obeys_eq_spec() -> bool {
        true
    }

    open spec fn eq_spec(&self, other: &Bitmap) -> bool {
        self.len == other.len && self.data@ == other.data@
    }
}

/// Two well-formed bitmaps are equal, byte for byte and in length, exactly
/// when they hold the same bits.
pub proof fn lemma_eq_iff_same_bits(a: Bitmap, b: Bitmap)
    requires
        a.wf(),
        b.wf(),
    ensures
        (a.len == b.len && a.data@ == b.data@) <==> a@ == b@,
{
    if a@ == b@ {
        assert(a.len == b.len) by {
            assert(a@.len() == b@.len());
        }
        assert forall|j: int| 0 <= j < a.data@.len() implies a.data@[j] == b.data@[j] by {
            let x = a.data@[j];
            let y = b.data@[j];
            assert forall|k: int| 0 <= k < 8 implies (byte_bit(x, k) == byte_bit(y, k)) by {
                let p = 8 * j + k;
                assert(p / 8 == j && p % 8 == k);
                if p < a.len {
                    assert(a@[p] == b@[p]);
                }
            }
            assert(byte_bit(x, 0) == byte_bit(y, 0));
            lemma_bit_set_iff(x, y, 0);
            assert(byte_bit(x, 1) == byte_bit(y, 1));
            lemma_bit_set_iff(x, y, 1);
            assert(byte_bit(x, 2) == byte_bit(y, 2));
            lemma_bit_set_iff(x, y, 2);
            assert(byte_bit(x, 3) == byte_bit(y, 3));
            lemma_bit_set_iff(x, y, 3);
            assert(byte_bit(x, 4) == byte_bit(y, 4));
            lemma_bit_set_iff(x, y, 4);
            assert(byte_bit(x, 5) == byte_bit(y, 5));
            lemma_bit_set_iff(x, y, 5);
            assert(byte_bit(x, 6) == byte_bit(y, 6));
            lemma_bit_set_iff(x, y, 6);
            assert(byte_bit(x, 7) == byte_bit(y, 7));
            lemma_bit_set_iff(x, y, 7);
            assert(1u8 << 0u8 == 1 && 1u8 << 1u8 == 2 && 1u8 << 2u8 == 4 && 1u8 << 3u8 == 8)
                by (bit_vector);
            assert(1u8 << 4u8 == 16 && 1u8 << 5u8 == 32 && 1u8 << 6u8 == 64 && 1u8 << 7u8 == 128)
                by (bit_vector);
            lemma_bits_equal_bytes_equal(x, y);
        }
        assert(a.data@ =~= b.data@);
    }
    if a.len == b.len && a.data@ == b.data@ {
        assert(a@ =~= b@);
    }
}

} // verus!
