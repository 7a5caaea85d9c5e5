use vstd::prelude::*;
use vstd::string::StringExecFns;
use vstd::string::StrSliceExecFns;

verus! {

/// The characters of lowercase hexadecimal, by value.
pub open spec fn hex_alphabet() -> Seq<char> {
    seq!['0', '1', '2', '3', '4', '5', '6', '7', '8', '9', 'a', 'b', 'c', 'd', 'e', 'f']
}

/// The lowercase hexadecimal digit of a value below sixteen.
pub open spec fn hex_char(n: nat) -> char
    recommends
        n < 16,
{
    hex_alphabet()[n as int]
}

/// The `i`-th hexadecimal digit of a byte string, high nibble first.
pub open spec fn nibble(bytes: Seq<u8>, i: int) -> nat {
    if i % 2 == 0 {
        (bytes[i / 2] / 16) as nat
    } else {
        (bytes[i / 2] % 16) as nat
    }
}

/// The first `n` hexadecimal digits of a byte string.
pub open spec fn hex_prefix(bytes: Seq<u8>, n: nat) -> Seq<char> {
    Seq::new(n, |i: int| hex_char(nibble(bytes, i)))
}

/// The whole byte string in lowercase hexadecimal, two digits per byte.
pub open spec fn hex_of(bytes: Seq<u8>) -> Seq<char> {
    hex_prefix(bytes, 2 * bytes.len())
}

/// The single-character string of a hexadecimal digit.
fn hex_digit(n: u8) -> (r: &'static str)
    requires
        n < 16,
    ensures
        r@ == seq![hex_char(n as nat)],
{
    let digits = "0123456789abcdef";
    proof {
        reveal_strlit("0123456789abcdef");
        assert(digits@ =~= hex_alphabet());
    }
    digits.substring_ascii(n as usize, n as usize + 1)
}

/// Appends the first `n` hexadecimal digits of `bytes` to `out`.
fn append_hex(out: &mut String, bytes: &Vec<u8>, n: usize)
    requires
        n <= 2 * bytes@.len(),
    ensures
        final(out)@ == old(out)@ + hex_prefix(bytes@, n as nat),
{
    let mut i: usize = 0;
    while i < n
        invariant
            i <= n,
            n <= 2 * bytes@.len(),
            out@ == old(out)@ + hex_prefix(bytes@, i as nat),
        decreases n - i,
    {
        let b = bytes[i / 2];
        let v: u8 = if i % 2 == 0 { b / 16 } else { b % 16 };
        let d = hex_digit(v);
        out.append(d);
        assert(hex_prefix(bytes@, (i + 1) as nat) =~= hex_prefix(bytes@, i as nat) + seq![hex_char(v as nat)]);
        i = i + 1;
    }
}

/// The identity of a commit: the bytes of its content hash.
#[derive(Debug)]
pub struct CommitId {
    pub bytes: Vec<u8>,
}

impl View for CommitId {
    type V = Seq<u8>;

    open spec fn view(&self) -> Seq<u8> {
        self.bytes@
    }
}

/// How many hexadecimal digits the abbreviated form of a commit id shows.
pub const SHORT_ID_DIGITS: usize = 9;

/// The abbreviated form of an id: its first hexadecimal digits.
pub open spec fn short_id_spec(id: Seq<u8>) -> Seq<char> {
    hex_prefix(id, SHORT_ID_DIGITS as nat)
}

impl Clone for CommitId {
    fn clone(&self) -> (r: CommitId)
        ensures
            r@ == self@,
    {
        let bytes = self.bytes.clone();
        assert(bytes@ =~= self.bytes@);
        CommitId { bytes }
    }
}

impl CommitId {
    pub fn new(bytes: Vec<u8>) -> (r: CommitId)
        ensures
            r@ == bytes@,
    {
        CommitId { bytes }
    }

    /// Whether two ids hold the same bytes.
    pub fn same_as(&self, other: &CommitId) -> (r: bool)
        ensures
            r == (self@ == other@),
    {
        if self.bytes.len() != other.bytes.len() {
            return false;
        }
        let mut i: usize = 0;
        while i < self.bytes.len()
            invariant
                self@.len() == other@.len(),
                i <= self@.len(),
                forall|j: int| 0 <= j < i ==> self@[j] == other@[j],
            decreases self@.len() - i,
        {
            if self.bytes[i] != other.bytes[i] {
                return false;
            }
            i = i + 1;
        }
        assert(self@ =~= other@);
        true
    }

    /// The id in full lowercase hexadecimal.
    pub fn to_hex(&self) -> (r: String)
        ensures
            r@ == hex_of(self@),
    {
        let mut out = String::new();
        let mut i: usize = 0;
        while i < self.bytes.len()
            invariant
                i <= self@.len(),
                out@ == hex_prefix(self@, 2 * i as nat),
            decreases self@.len() - i,
        {
            let b = self.bytes[i];
            out.append(hex_digit(b / 16));
            out.append(hex_digit(b % 16));
            assert(hex_prefix(self@, 2 * (i + 1) as nat) =~= hex_prefix(self@, 2 * i as nat)
                + seq![hex_char((b / 16) as nat), hex_char((b % 16) as nat)]);
            i = i + 1;
        }
        out
    }

    /// The abbreviated id shown beside each commit of a stack.
    pub fn short_hex(&self) -> (r: String)
        requires
            2 * self@.len() >= SHORT_ID_DIGITS,
        ensures
            r@ == short_id_spec(self@),
    {
        let mut out = String::new();
        append_hex(&mut out, &self.bytes, SHORT_ID_DIGITS);
        assert(out@ =~= short_id_spec(self@));
        out
    }
}

/// A commit as the history walk hands it over: its id and one-line summary.
#[derive(Debug)]
pub struct Commit {
    pub id: CommitId,
    pub summary: String,
}

/// The mathematical value of a commit.
pub struct CommitView {
    pub id: Seq<u8>,
    pub summary: Seq<char>,
}

impl View for Commit {
    type V = CommitView;

    open spec fn view(&self) -> CommitView {
        CommitView { id: self.id@, summary: self.summary@ }
    }
}

pub open spec fn commit_views(cs: Seq<Commit>) -> Seq<CommitView> {
    cs.map_values(|c: Commit| c@)
}

} // verus!
