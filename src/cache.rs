use vstd::prelude::*;
use vstd::string::StringExecFns;
use crate::snapshot::{decode_entries, encode_snapshot, entries_fit, entries_view};
use crate::url_entry::{EntryModel, UrlEntry};

verus! {

/// Name of the cache directory, under the temporary directory.
pub const CACHE_DIR: &'static str = "barbara";

/// The directory holding the snapshot files, under `temp_dir`.
pub open spec fn cache_dir_spec(temp_dir: Seq<char>) -> Seq<char> {
    temp_dir + seq!['/'] + CACHE_DIR@
}

/// The cache directory under the platform's temporary directory `temp_dir`.
pub fn cache_dir(temp_dir: &str) -> (r: String)
    ensures
        r@ == cache_dir_spec(temp_dir@),
{
    let mut d = temp_dir.to_owned();
    d.append("/");
    d.append(CACHE_DIR);
    proof {
        reveal_strlit("/");
    }
    d
}

/// Among files last modified at `modified[i]`, the index of the most recent
/// one: the earliest of those with the greatest time, or `None` when there
/// is no file.
pub fn select_latest(modified: &Vec<u128>) -> (r: Option<usize>)
    ensures
        modified@.len() == 0 <==> r is None,
        r matches Some(k) ==> k < modified@.len() && (forall|j: int|
            0 <= j < modified@.len() ==> #[trigger] modified@[j] <= modified@[k as int]) && (forall|j: int|
            0 <= j < k ==> #[trigger] modified@[j] < modified@[k as int]),
{
    let mut best: Option<usize> = None;
    let mut i: usize = 0;
    while i < modified.len()
        invariant
            i <= modified@.len(),
            i == 0 <==> best is None,
            best matches Some(k) ==> k < i && (forall|j: int|
                0 <= j < i ==> #[trigger] modified@[j] <= modified@[k as int]) && (forall|j: int|
                0 <= j < k ==> #[trigger] modified@[j] < modified@[k as int]),
        decreases modified@.len() - i,
    {
        match best {
            None => {
                best = Some(i);
            },
            Some(k) => {
                if modified[i] > modified[k] {
                    best = Some(i);
                }
            },
        }
        i = i + 1;
    }
    best
}

/// What a load makes of the bytes of the selected snapshot file: its entries
/// when it decodes and holds at least one, and `None` when it does not decode
/// or holds none.
pub fn read_snapshot(bytes: &Vec<u8>) -> (r: Option<Vec<UrlEntry>>)
    ensures
        r matches Some(v) ==> v@.len() > 0 && bytes@ == encode_snapshot(entries_view(v@)),
        forall|es: Seq<EntryModel>|
            entries_fit(es) && #[trigger] encode_snapshot(es) == bytes@ ==> if es.len() == 0 {
                r is None
            } else {
                r matches Some(v) && entries_view(v@) == es
            },
{
    match decode_entries(bytes) {
        Some(v) => {
            if v.len() == 0 {
                None
            } else {
                Some(v)
            }
        },
        None => None,
    }
}

/// The character of a decimal digit.
pub open spec fn digit_char(d: nat) -> char {
    seq!['0', '1', '2', '3', '4', '5', '6', '7', '8', '9'][d as int]
}

/// The value of a decimal digit character.
pub open spec fn digit_value(c: char) -> nat {
    if c == '1' { 1 }
    else if c == '2' { 2 }
    else if c == '3' { 3 }
    else if c == '4' { 4 }
    else if c == '5' { 5 }
    else if c == '6' { 6 }
    else if c == '7' { 7 }
    else if c == '8' { 8 }
    else if c == '9' { 9 }
    else { 0 }
}

/// The decimal notation of `n`, without leading zeros.
pub open spec fn decimal_spec(n: nat) -> Seq<char>
    decreases n,
{
    if n < 10 {
        seq![digit_char(n)]
    } else {
        decimal_spec(n / 10).push(digit_char(n % 10))
    }
}

/// The number that a sequence of decimal digits denotes.
pub open spec fn decimal_value(s: Seq<char>) -> nat
    decreases s.len(),
{
    if s.len() == 0 {
        0
    } else {
        decimal_value(s.drop_last()) * 10 + digit_value(s.last())
    }
}

proof fn lemma_digit_value(d: nat)
    requires
        d < 10,
    ensures
        digit_value(digit_char(d)) == d,
{
    let ds = seq!['0', '1', '2', '3', '4', '5', '6', '7', '8', '9'];
    assert(digit_char(d) == ds[d as int]);
    if d == 0 {} else if d == 1 {} else if d == 2 {} else if d == 3 {} else if d == 4 {}
    else if d == 5 {} else if d == 6 {} else if d == 7 {} else if d == 8 {} else {}
}

proof fn lemma_decimal_value(n: nat)
    ensures
        decimal_value(decimal_spec(n)) == n,
    decreases n,
{
    if n < 10 {
        lemma_digit_value(n);
        let s = decimal_spec(n);
        assert(s.drop_last() =~= Seq::<char>::empty());
        assert(decimal_value(s) == decimal_value(s.drop_last()) * 10 + digit_value(s.last()));
    } else {
        lemma_decimal_value(n / 10);
        lemma_digit_value(n % 10);
        let s = decimal_spec(n);
        assert(s.drop_last() =~= decimal_spec(n / 10));
        assert(s.last() == digit_char(n % 10));
        assert(decimal_value(s) == decimal_value(s.drop_last()) * 10 + digit_value(s.last()));
        assert((n / 10) * 10 + n % 10 == n);
    }
}

/// Relies on the `Display` impl of `u128` (through `to_string`): the decimal
/// notation of the number, without sign or leading zeros.
#[verifier::external_body]
fn decimal(n: u128) -> (r: String)
    ensures
        r@ == decimal_spec(n as nat),
{
    n.to_string()
}

/// The name of the snapshot file that a writer with process id `pid`
/// writes at `micros` microseconds since the epoch as its `counter`-th file.
pub open spec fn file_name_spec(pid: nat, micros: nat, counter: nat) -> Seq<char> {
    CACHE_DIR@ + seq!['_'] + decimal_spec(pid) + seq!['_'] + decimal_spec(micros) + seq!['_']
        + decimal_spec(counter) + seq!['.', 'b', 'i', 'n']
}

/// A decimal digit character.
pub open spec fn is_digit(c: char) -> bool {
    '0' <= c <= '9'
}

proof fn lemma_decimal_digits(n: nat)
    ensures
        decimal_spec(n).len() >= 1,
        forall|i: int| 0 <= i < decimal_spec(n).len() ==> is_digit(#[trigger] decimal_spec(n)[i]),
    decreases n,
{
    let ds = seq!['0', '1', '2', '3', '4', '5', '6', '7', '8', '9'];
    assert forall|d: nat| d < 10 implies is_digit(#[trigger] digit_char(d)) by {
        assert(digit_char(d) == ds[d as int]);
    }
    if n >= 10 {
        lemma_decimal_digits(n / 10);
    }
}

proof fn lemma_decimal_injective(a: nat, b: nat)
    requires
        decimal_spec(a) == decimal_spec(b),
    ensures
        a == b,
{
    lemma_decimal_value(a);
    lemma_decimal_value(b);
}

/// Splits `x + '_' + r` at its first separator, where `x` holds digits only.
proof fn lemma_split_at_separator(x1: Seq<char>, r1: Seq<char>, x2: Seq<char>, r2: Seq<char>)
    requires
        forall|i: int| 0 <= i < x1.len() ==> is_digit(#[trigger] x1[i]),
        forall|i: int| 0 <= i < x2.len() ==> is_digit(#[trigger] x2[i]),
        x1 + seq!['_'] + r1 == x2 + seq!['_'] + r2,
    ensures
        x1 == x2,
        r1 == r2,
{
    let s = x1 + seq!['_'] + r1;
    if x1.len() < x2.len() {
        assert(s[x1.len() as int] == '_');
        assert((x2 + seq!['_'] + r2)[x1.len() as int] == x2[x1.len() as int]);
    } else if x2.len() < x1.len() {
        assert((x2 + seq!['_'] + r2)[x2.len() as int] == '_');
        assert(s[x2.len() as int] == x1[x2.len() as int]);
    } else {
        assert(x1 =~= s.subrange(0, x1.len() as int));
        assert(x2 =~= (x2 + seq!['_'] + r2).subrange(0, x2.len() as int));
        assert(r1 =~= s.subrange(x1.len() as int + 1, s.len() as int));
        assert(r2 =~= (x2 + seq!['_'] + r2).subrange(x2.len() as int + 1, s.len() as int));
    }
}

/// Snapshot files are named uniquely: two names are equal only when the
/// process id, the timestamp and the counter are all equal. Writers in
/// different processes, or at different instants, or one writer with
/// different counter values, never share a file.
pub proof fn lemma_file_names_unique(pid1: nat, m1: nat, c1: nat, pid2: nat, m2: nat, c2: nat)
    requires
        file_name_spec(pid1, m1, c1) == file_name_spec(pid2, m2, c2),
    ensures
        pid1 == pid2,
        m1 == m2,
        c1 == c2,
{
    let pre = CACHE_DIR@ + seq!['_'];
    let ext = seq!['.', 'b', 'i', 'n'];
    let t1 = decimal_spec(m1) + seq!['_'] + decimal_spec(c1) + ext;
    let t2 = decimal_spec(m2) + seq!['_'] + decimal_spec(c2) + ext;
    let u1 = decimal_spec(pid1) + seq!['_'] + t1;
    let u2 = decimal_spec(pid2) + seq!['_'] + t2;
    assert(file_name_spec(pid1, m1, c1) =~= pre + u1);
    assert(file_name_spec(pid2, m2, c2) =~= pre + u2);
    assert(u1 =~= (pre + u1).subrange(pre.len() as int, (pre + u1).len() as int));
    assert(u2 =~= (pre + u2).subrange(pre.len() as int, (pre + u2).len() as int));
    lemma_decimal_digits(pid1);
    lemma_decimal_digits(pid2);
    lemma_decimal_digits(m1);
    lemma_decimal_digits(m2);
    lemma_split_at_separator(decimal_spec(pid1), t1, decimal_spec(pid2), t2);
    lemma_decimal_injective(pid1, pid2);
    let v1 = decimal_spec(c1) + ext;
    let v2 = decimal_spec(c2) + ext;
    assert(t1 =~= decimal_spec(m1) + seq!['_'] + v1);
    assert(t2 =~= decimal_spec(m2) + seq!['_'] + v2);
    lemma_split_at_separator(decimal_spec(m1), v1, decimal_spec(m2), v2);
    lemma_decimal_injective(m1, m2);
    assert(decimal_spec(c1) =~= v1.subrange(0, v1.len() - 4));
    assert(decimal_spec(c2) =~= v2.subrange(0, v2.len() - 4));
    lemma_decimal_injective(c1, c2);
}

/// The cache directory and the identity of the writer that uses it.
pub struct CacheContext {
    dir: String,
    pid: u32,
    counter: u64,
}

impl CacheContext {
    pub closed spec fn spec_dir(&self) -> Seq<char> {
        self.dir@
    }

    pub closed spec fn spec_pid(&self) -> u32 {
        self.pid
    }

    /// How many file names this context has handed out, modulo 2^64.
    pub closed spec fn spec_counter(&self) -> u64 {
        self.counter
    }

    /// A context for the process `pid`, whose cache lives under `temp_dir`.
    pub fn new(temp_dir: &str, pid: u32) -> (r: CacheContext)
        ensures
            r.spec_dir() == cache_dir_spec(temp_dir@),
            r.spec_pid() == pid,
            r.spec_counter() == 0,
    {
        CacheContext { dir: cache_dir(temp_dir), pid, counter: 0 }
    }

    pub fn dir(&self) -> (r: &String)
        ensures
            r@ == self.spec_dir(),
    {
        &self.dir
    }

    /// The path of a new snapshot file, written at `micros` microseconds
    /// since the epoch. Each call takes the next counter value.
    pub fn next_file_path(&mut self, micros: u128) -> (r: String)
        ensures
            r@ == old(self).spec_dir() + seq!['/'] + file_name_spec(
                old(self).spec_pid() as nat,
                micros as nat,
                old(self).spec_counter() as nat,
            ),
            final(self).spec_dir() == old(self).spec_dir(),
            final(self).spec_pid() == old(self).spec_pid(),
            final(self).spec_counter() == old(self).spec_counter().wrapping_add(1),
    {
        let mut p = self.dir.clone();
        p.append("/");
        p.append(CACHE_DIR);
        p.append("_");
        p.append(decimal(self.pid as u128).as_str());
        p.append("_");
        p.append(decimal(micros).as_str());
        p.append("_");
        p.append(decimal(self.counter as u128).as_str());
        p.append(".bin");
        proof {
            reveal_strlit("/");
            reveal_strlit("_");
            reveal_strlit(".bin");
            assert(p@ =~= old(self).spec_dir() + seq!['/'] + file_name_spec(
                self.pid as nat,
                micros as nat,
                self.counter as nat,
            ));
        }
        self.counter = self.counter.wrapping_add(1);
        p
    }
}

} // verus!
