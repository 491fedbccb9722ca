//! Miner-side vocabulary: the mining wire tags, mining-key configuration and
//! the jobs a pool hands out.

use vstd::prelude::*;
use vstd::string::*;

verus! {

/// The wires the mining driver pokes its kernel on.
#[derive(Debug, Clone, Copy, PartialEq, Eq)]
pub enum MiningWire {
    Mined,
    Candidate,
    SetPubKey,
    Enable,
    PoolCandidate,
    ShareFound,
}

impl MiningWire {
    pub open spec fn verb_spec(&self) -> Seq<char> {
        match self {
            MiningWire::Mined => "mined"@,
            MiningWire::SetPubKey => "setpubkey"@,
            MiningWire::Candidate => "candidate"@,
            MiningWire::Enable => "enable"@,
            MiningWire::PoolCandidate => "pool-candidate"@,
            MiningWire::ShareFound => "share-found"@,
        }
    }

    /// The tag of the wire.
    pub fn verb(&self) -> (r: &'static str)
        ensures
            r@ == self.verb_spec(),
    {
        match self {
            MiningWire::Mined => "mined",
            MiningWire::SetPubKey => "setpubkey",
            MiningWire::Candidate => "candidate",
            MiningWire::Enable => "enable",
            MiningWire::PoolCandidate => "pool-candidate",
            MiningWire::ShareFound => "share-found",
        }
    }
}

/// A job as a pool hands it to a miner.
#[derive(Debug, Clone)]
pub struct PoolJob {
    pub id: String,
    pub block_commitment: Vec<u8>,
    pub target: Vec<u8>,
    pub share_target: Vec<u8>,
    pub nonce_start: u64,
    pub nonce_range: u64,
}

/// One mining-key setting: a share of `m` over a set of keys.
#[derive(Debug, Clone)]
pub struct MiningKeyConfig {
    pub share: u64,
    pub m: u64,
    pub keys: Vec<String>,
}

/// The pieces of `s` between occurrences of `sep`, in order.
pub open spec fn split_on(s: Seq<char>, sep: char) -> Seq<Seq<char>>
    decreases s.len(),
{
    if s.len() == 0 {
        seq![Seq::empty()]
    } else {
        let rest = split_on(s.drop_last(), sep);
        if s.last() == sep {
            rest.push(Seq::empty())
        } else {
            rest.update(rest.len() - 1, rest.last().push(s.last()))
        }
    }
}

proof fn lemma_split_nonempty(s: Seq<char>, sep: char)
    ensures
        split_on(s, sep).len() >= 1,
    decreases s.len(),
{
    if s.len() > 0 {
        lemma_split_nonempty(s.drop_last(), sep);
    }
}

/// Value of a string of decimal digits.
pub open spec fn digits_value(d: Seq<char>) -> int
    decreases d.len(),
{
    if d.len() == 0 {
        0
    } else {
        digits_value(d.drop_last()) * 10 + (d.last() as int - '0' as int)
    }
}

/// The digits of an unsigned numeral: the text without an optional leading `+`.
pub open spec fn numeral_digits(s: Seq<char>) -> Seq<char> {
    if s.len() > 0 && s[0] == '+' { s.drop_first() } else { s }
}

/// `s` is an unsigned decimal numeral (an optional `+`, then at least one
/// digit) whose value fits 64 bits.
pub open spec fn is_u64_numeral(s: Seq<char>) -> bool {
    let d = numeral_digits(s);
    &&& d.len() > 0
    &&& forall|i: int| 0 <= i < d.len() ==> '0' <= #[trigger] d[i] <= '9'
    &&& digits_value(d) <= u64::MAX
}

/// Relies on `str::parse::<u64>`: an optional `+` then decimal digits, the
/// value fitting 64 bits, else the error's text.
#[verifier::external_body]
fn parse_u64(s: &str) -> (r: Result<u64, String>)
    ensures
        r is Ok <==> is_u64_numeral(s@),
        r matches Ok(n) ==> n == digits_value(numeral_digits(s@)),
{
    s.parse::<u64>().map_err(|e| e.to_string())
}

/// Splits `s` at every `sep`.
fn split(s: &str, sep: char) -> (r: Vec<String>)
    ensures
        r@.map_values(|p: String| p@) == split_on(s@, sep),
{
    let n = s.unicode_len();
    let mut parts: Vec<String> = Vec::new();
    let mut start: usize = 0;
    let mut i: usize = 0;
    proof {
        assert(s@.take(0) =~= Seq::<char>::empty());
    }
    while i < n
        invariant
            n == s@.len(),
            start <= i <= n,
            parts@.map_values(|p: String| p@).push(s@.subrange(start as int, i as int)) == split_on(s@.take(i as int), sep),
        decreases n - i,
    {
        let c = s.get_char(i);
        proof {
            assert(s@.take(i as int + 1).drop_last() == s@.take(i as int));
            assert(s@.take(i as int + 1).last() == c);
        }
        if c == sep {
            let piece = String::from_str(s.substring_char(start, i));
            let ghost before = parts@.map_values(|p: String| p@);
            parts.push(piece);
            proof {
                assert(parts@.map_values(|p: String| p@) =~= before.push(s@.subrange(start as int, i as int)));
                assert(s@.subrange(i as int + 1, i as int + 1) =~= Seq::<char>::empty());
            }
            start = i + 1;
        } else {
            proof {
                let before = parts@.map_values(|p: String| p@);
                let rest = before.push(s@.subrange(start as int, i as int));
                assert(s@.subrange(start as int, i as int + 1) =~= s@.subrange(start as int, i as int).push(c));
                assert(rest.update(rest.len() - 1, rest.last().push(c)) =~= before.push(
                    s@.subrange(start as int, i as int + 1),
                ));
            }
        }
        i = i + 1;
    }
    let last = String::from_str(s.substring_char(start, n));
    let ghost before = parts@.map_values(|p: String| p@);
    parts.push(last);
    proof {
        assert(s@.take(n as int) =~= s@);
        assert(parts@.map_values(|p: String| p@) =~= before.push(s@.subrange(start as int, n as int)));
    }
    parts
}

/// The reading of `share,m:key1,key2,...`.
pub open spec fn key_config_outcome(s: Seq<char>, r: Result<MiningKeyConfig, String>) -> bool {
    let parts = split_on(s, ':');
    if parts.len() != 2 {
        r matches Err(e) && e@ == "Invalid format. Expected 'share,m:key1,key2,key3'"@
    } else {
        let share_m = split_on(parts[0], ',');
        if share_m.len() != 2 {
            r matches Err(e) && e@ == "Invalid share,m format"@
        } else if !is_u64_numeral(share_m[0]) || !is_u64_numeral(share_m[1]) {
            r is Err
        } else {
            r matches Ok(c) && c.share == digits_value(numeral_digits(share_m[0])) && c.m == digits_value(
                numeral_digits(share_m[1]),
            ) && c.keys@.map_values(|k: String| k@) == split_on(parts[1], ',')
        }
    }
}

impl MiningKeyConfig {
    /// Reads `share,m:key1,key2,...`.
    pub fn from_str(s: &str) -> (r: Result<Self, String>)
        ensures
            key_config_outcome(s@, r),
    {
        let parts = split(s, ':');
        proof {
            assert(parts@.len() == split_on(s@, ':').len());
        }
        if parts.len() != 2 {
            return Err(String::from_str("Invalid format. Expected 'share,m:key1,key2,key3'"));
        }
        proof {
            assert(parts@[0]@ == split_on(s@, ':')[0]);
            assert(parts@[1]@ == split_on(s@, ':')[1]);
        }
        let share_m = split(parts[0].as_str(), ',');
        proof {
            assert(share_m@.len() == split_on(parts@[0]@, ',').len());
        }
        if share_m.len() != 2 {
            return Err(String::from_str("Invalid share,m format"));
        }
        proof {
            assert(share_m@[0]@ == split_on(parts@[0]@, ',')[0]);
            assert(share_m@[1]@ == split_on(parts@[0]@, ',')[1]);
        }
        let share = match parse_u64(share_m[0].as_str()) {
            Ok(n) => n,
            Err(e) => {
                return Err(e);
            },
        };
        let m = match parse_u64(share_m[1].as_str()) {
            Ok(n) => n,
            Err(e) => {
                return Err(e);
            },
        };
        let keys = split(parts[1].as_str(), ',');
        Ok(MiningKeyConfig { share, m, keys })
    }
}

} // verus!
