//! Versioned backups of vehicle configs: their names, their index, and
//! which ones a restore uses.
use vstd::prelude::*;

use crate::digest::{checksum_bytes, hex_lower, sha256_of};
use crate::error::AppError;
use crate::paths::{extension, file_name, file_name_of, join, join_path, name_stem, name_stem_of};
use crate::config::vehicle_key_from_path;
use crate::text::{
    concat, decimal, digit_char, digit_exec, lemma_seq_lt_irreflexive, lemma_seq_lt_total,
    lemma_seq_lt_transitive, seq_lt, str_eq, str_lt, u64_to_decimal, zero_pad, zero_pad_str,
};

verus! {

// ---------------------------------------------------------------------------
// Sizes
// ---------------------------------------------------------------------------

/// 2 to the power `k`.
pub open spec fn pow2(k: nat) -> nat
    decreases k,
{
    if k == 0 {
        1
    } else {
        2 * pow2((k - 1) as nat)
    }
}

/// The number of binary digits of `n`.
pub open spec fn bit_len(n: nat) -> nat
    decreases n,
{
    if n == 0 {
        0
    } else {
        1 + bit_len(n / 2)
    }
}

/// `n / d` rounded to the nearest integer, ties to even.
pub open spec fn div_round_even(n: nat, d: nat) -> nat
    recommends
        d > 0,
{
    let q = n / d;
    let r = n % d;
    if 2 * r > d {
        q + 1
    } else if 2 * r < d {
        q
    } else if q % 2 == 0 {
        q
    } else {
        q + 1
    }
}

/// The value of `n as f64`: exact below 2^53, otherwise rounded to 53
/// significant bits, ties to even.
pub open spec fn f64_value(n: nat) -> nat {
    if n < pow2(53) {
        n
    } else {
        let s = (bit_len(n) - 53) as nat;
        div_round_even(n, pow2(s)) * pow2(s)
    }
}

/// `n / d` written with two decimals, rounded half to even.
pub open spec fn fixed2(n: nat, d: nat) -> Seq<char> {
    let c = div_round_even(n * 100, d);
    decimal(c / 100) + seq!['.', digit_char((c % 100) / 10), digit_char(c % 10)]
}

/// A byte count for display: `x.xx MB` from 1 MiB up, `x.xx KB` from 1 KiB
/// up, `n B` below.
pub open spec fn size_text(bytes: nat) -> Seq<char> {
    let v = f64_value(bytes);
    if v >= 1048576 {
        fixed2(v, 1048576) + " MB"@
    } else if v >= 1024 {
        fixed2(v, 1024) + " KB"@
    } else {
        decimal(bytes) + " B"@
    }
}

proof fn lemma_pow2_pos(k: nat)
    ensures
        pow2(k) >= 1,
    decreases k,
{
    if k > 0 {
        lemma_pow2_pos((k - 1) as nat);
    }
}

proof fn lemma_pow2_values()
    ensures
        pow2(11) == 2048,
        pow2(53) == 9007199254740992,
        pow2(64) == 18446744073709551616,
{
    reveal_with_fuel(pow2, 12);
    assert(pow2(11) == 2048);
    lemma_pow2_add(11, 11);
    assert(pow2(22) == 4194304);
    lemma_pow2_add(22, 22);
    assert(pow2(44) == 17592186044416);
    assert(pow2(9) == 512);
    lemma_pow2_add(44, 9);
    assert(pow2(53) == 9007199254740992);
    lemma_pow2_add(53, 11);
}

proof fn lemma_pow2_add(a: nat, b: nat)
    ensures
        pow2(a + b) == pow2(a) * pow2(b),
    decreases b,
{
    if b > 0 {
        let b1 = (b - 1) as nat;
        let s1 = (a + b1) as nat;
        lemma_pow2_add(a, b1);
        assert(pow2(a + b) == 2 * pow2(s1));
        assert(pow2(b) == 2 * pow2(b1));
        let x = pow2(a);
        let y = pow2(b1);
        assert(x * (2 * y) == 2 * (x * y)) by (nonlinear_arith);
    } else {
        assert(pow2(0) == 1);
        assert(pow2(a) * 1 == pow2(a));
    }
}

proof fn lemma_bit_len_bound(n: nat, k: nat)
    requires
        n < pow2(k),
    ensures
        bit_len(n) <= k,
    decreases k,
{
    if k > 0 && n > 0 {
        lemma_bit_len_bound(n / 2, (k - 1) as nat);
    }
}

/// The rounded integer quotient, as the exec code computes it.
fn div_round_even_exec(n: u128, d: u128) -> (r: u128)
    requires
        d > 0,
        n / d < u128::MAX,
    ensures
        r == div_round_even(n as nat, d as nat),
{
    let q = n / d;
    let r = n % d;
    let twice: u128 = if r <= u128::MAX / 2 {
        2 * r
    } else {
        u128::MAX
    };
    assert(r < d);
    if r > u128::MAX / 2 {
        assert(2 * r > d) by (nonlinear_arith)
            requires
                r > u128::MAX / 2,
                d <= u128::MAX,
                d > r,
        {
        }
        return q + 1;
    }
    if twice > d {
        q + 1
    } else if twice < d {
        q
    } else if q % 2 == 0 {
        q
    } else {
        q + 1
    }
}

/// The value of a byte count as a float, exactly.
fn f64_value_exec(bytes: u64) -> (r: u128)
    ensures
        r == f64_value(bytes as nat),
        r <= 36893488147419103232u128,
{
    proof {
        lemma_pow2_values();
    }
    if bytes < 9007199254740992u64 {
        return bytes as u128;
    }
    let mut len: u64 = 0;
    let mut rest: u64 = bytes;
    while rest > 0
        invariant
            len + bit_len(rest as nat) == bit_len(bytes as nat),
            len <= 64,
            pow2(64) == 18446744073709551616,
            pow2(53) == 9007199254740992,
            rest < pow2((64 - len) as nat),
        decreases rest,
    {
        proof {
            assert(pow2((64 - len) as nat) == 2 * pow2((64 - len - 1) as nat));
        }
        rest = rest / 2;
        len = len + 1;
    }
    proof {
        lemma_bit_len_bound(bytes as nat, 64);
        if bit_len(bytes as nat) < 54 {
            lemma_bit_len_ge(bytes as nat, 53);
        }
    }
    let s = len - 53;
    let mut d: u128 = 1;
    let mut k: u64 = 0;
    while k < s
        invariant
            k <= s <= 11,
            pow2(11) == 2048,
            d == pow2(k as nat),
            d <= 2048,
        decreases s - k,
    {
        proof {
            lemma_pow2_mono(k as nat + 1, 11);
        }
        d = d * 2;
        k = k + 1;
    }
    proof {
        lemma_pow2_pos(k as nat);
    }
    let q = div_round_even_exec(bytes as u128, d);
    proof {
        assert(q <= (bytes as u128) / d + 1);
        assert(q * d <= bytes + d) by (nonlinear_arith)
            requires
                q <= (bytes as u128) / d + 1,
                d > 0,
        {
        }
    }
    q * d
}

proof fn lemma_pow2_mono(a: nat, b: nat)
    requires
        a <= b,
    ensures
        pow2(a) <= pow2(b),
    decreases b,
{
    if a < b {
        lemma_pow2_mono(a, (b - 1) as nat);
        lemma_pow2_pos((b - 1) as nat);
    }
}

proof fn lemma_bit_len_ge(n: nat, k: nat)
    requires
        n >= pow2(k),
    ensures
        bit_len(n) >= k + 1,
    decreases k,
{
    if k > 0 {
        lemma_bit_len_ge(n / 2, (k - 1) as nat);
    } else {
        assert(n >= 1);
    }
}

/// `n / d` with two decimals.
fn fixed2_exec(n: u128, d: u128) -> (r: String)
    requires
        d == 1024 || d == 1048576,
        n <= 36893488147419103232u128,
    ensures
        r@ == fixed2(n as nat, d as nat),
{
    let n100: u128 = n * 100;
    let c = div_round_even_exec(n100, d);
    assert(c <= n100 / d + 1);
    assert(c / 100 < u64::MAX) by (nonlinear_arith)
        requires
            n100 == n * 100,
            c <= n100 / d + 1,
            d >= 1024,
            n <= 36893488147419103232u128,
    {
    }
    let whole = u64_to_decimal((c / 100) as u64);
    let frac = (c % 100) as u64;
    let mut out = whole;
    out.push('.');
    out.push(digit_exec(frac / 10));
    out.push(digit_exec(frac % 10));
    proof {
        assert(frac % 10 == c % 10) by (nonlinear_arith)
            requires
                frac == c % 100,
        {
        }
    }
    out
}

proof fn lemma_pow2_53()
    ensures
        pow2(53) == 9007199254740992,
{
    reveal_with_fuel(pow2, 54);
}

/// Sizes are shown in bytes below 1 KiB, and a whole number of KiB or MiB
/// (under 1024 of them) is shown with two zero decimals: `12 B`,
/// `3.00 KB`, `5.00 MB`.
pub proof fn law_size_text(bytes: nat, k: nat)
    ensures
        bytes < 1024 ==> size_text(bytes) == decimal(bytes) + " B"@,
        1 <= k < 1024 && bytes == k * 1024 ==> size_text(bytes) == decimal(k) + ".00 KB"@,
        1 <= k < 1024 && bytes == k * 1048576 ==> size_text(bytes) == decimal(k) + ".00 MB"@,
{
    lemma_pow2_53();
    reveal_strlit(".00 KB");
    reveal_strlit(".00 MB");
    reveal_strlit(" KB");
    reveal_strlit(" MB");
    if 1 <= k < 1024 && bytes == k * 1024 {
        assert(bytes < 1048576) by (nonlinear_arith)
            requires
                k < 1024,
                bytes == k * 1024,
        ;
        assert(bytes >= 1024) by (nonlinear_arith)
            requires
                1 <= k,
                bytes == k * 1024,
        ;
        assert((bytes * 100) / 1024 == k * 100 && (bytes * 100) % 1024 == 0) by (nonlinear_arith)
            requires
                bytes == k * 1024,
        ;
        assert(div_round_even(bytes * 100, 1024) == k * 100);
        assert((k * 100) / 100 == k && (k * 100) % 100 == 0) by (nonlinear_arith);
        assert(fixed2(bytes, 1024) =~= decimal(k) + seq!['.', '0', '0']);
        assert(size_text(bytes) =~= decimal(k) + ".00 KB"@);
    }
    if 1 <= k < 1024 && bytes == k * 1048576 {
        assert(1048576 <= bytes < 9007199254740992) by (nonlinear_arith)
            requires
                1 <= k < 1024,
                bytes == k * 1048576,
        ;
        assert((bytes * 100) / 1048576 == k * 100 && (bytes * 100) % 1048576 == 0) by (nonlinear_arith)
            requires
                bytes == k * 1048576,
        ;
        assert(div_round_even(bytes * 100, 1048576) == k * 100);
        assert((k * 100) / 100 == k && (k * 100) % 100 == 0) by (nonlinear_arith);
        assert(fixed2(bytes, 1048576) =~= decimal(k) + seq!['.', '0', '0']);
        assert(size_text(bytes) =~= decimal(k) + ".00 MB"@);
    }
}

/// A byte count for display (`1.50 KB`, `12 B`, ...).
pub fn format_size(bytes: u64) -> (r: String)
    ensures
        r@ == size_text(bytes as nat),
{
    let v = f64_value_exec(bytes);
    if v >= 1048576 {
        let t = fixed2_exec(v, 1048576);
        concat(t.as_str(), " MB")
    } else if v >= 1024 {
        let t = fixed2_exec(v, 1024);
        concat(t.as_str(), " KB")
    } else {
        let t = u64_to_decimal(bytes);
        concat(t.as_str(), " B")
    }
}


// ---------------------------------------------------------------------------
// Keys, names and metadata
// ---------------------------------------------------------------------------

/// A backup folder name for a vehicle key: ASCII letters, digits, `-` and
/// `_` are kept, every other character becomes `_`.
pub open spec fn sanitized(key: Seq<char>) -> Seq<char> {
    key.map_values(
        |c: char|
            if ('a' <= c && c <= 'z') || ('A' <= c && c <= 'Z') || ('0' <= c && c <= '9') || c == '-'
                || c == '_' {
                c
            } else {
                '_'
            },
    )
}

/// A backup folder name is as long as its key, keeps the key's ASCII
/// letters, digits, `-` and `_` in place, and has `_` in place of every
/// other character, so it holds only such characters.
pub proof fn law_sanitized_key(key: Seq<char>)
    ensures
        sanitized(key).len() == key.len(),
        forall|i: int|
            0 <= i < key.len() ==> {
                let c = key[i];
                let safe = ('a' <= c && c <= 'z') || ('A' <= c && c <= 'Z') || ('0' <= c && c <= '9') || c == '-'
                    || c == '_';
                &&& safe ==> #[trigger] sanitized(key)[i] == c
                &&& !safe ==> sanitized(key)[i] == '_'
            },
        forall|i: int|
            0 <= i < key.len() ==> {
                let d = #[trigger] sanitized(key)[i];
                ('a' <= d && d <= 'z') || ('A' <= d && d <= 'Z') || ('0' <= d && d <= '9') || d == '-' || d == '_'
            },
{
}

/// The backup folder name of a vehicle key.
pub fn sanitize_key(key: &str) -> (r: String)
    ensures
        r@ == sanitized(key@),
{
    let v = crate::text::chars_of(key);
    let mut out: Vec<char> = Vec::new();
    let mut i: usize = 0;
    while i < v.len()
        invariant
            i <= v@.len(),
            v@ == key@,
            out@ == sanitized(v@.take(i as int)),
        decreases v@.len() - i,
    {
        let c = v[i];
        let keep = ('a' <= c && c <= 'z') || ('A' <= c && c <= 'Z') || ('0' <= c && c <= '9') || c == '-'
            || c == '_';
        if keep {
            out.push(c);
        } else {
            out.push('_');
        }
        i = i + 1;
        assert(out@ =~= sanitized(v@.take(i as int)));
    }
    assert(v@.take(v@.len() as int) =~= v@);
    crate::text::string_of(out.as_slice())
}

/// `<key>_<timestamp>_v<version, 3 digits at least>.pc`.
pub open spec fn backup_file_name_spec(key: Seq<char>, timestamp: Seq<char>, version: nat) -> Seq<char> {
    key + seq!['_'] + timestamp + seq!['_', 'v'] + zero_pad(decimal(version), 3) + ".pc"@
}

/// The file name of a backup.
pub fn backup_file_name(key: &str, timestamp: &str, version: u32) -> (r: String)
    ensures
        r@ == backup_file_name_spec(key@, timestamp@, version as nat),
{
    let mut r = key.to_owned();
    r.push('_');
    r.append(timestamp);
    r.push('_');
    r.push('v');
    let digits = u64_to_decimal(version as u64);
    let padded = zero_pad_str(digits.as_str(), 3);
    r.append(padded.as_str());
    r.append(".pc");
    r
}

/// The side-car metadata file of a backup: its extension replaced by `meta.json`.
pub open spec fn meta_path_spec(backup_path: Seq<char>) -> Seq<char> {
    crate::paths::with_extension(backup_path, "meta.json"@)
}

/// Whether a file in a backup folder is a backup (its extension is `pc`).
pub fn is_backup_file(path: &str) -> (r: bool)
    ensures
        r == (extension(path@) == Some("pc"@)),
{
    crate::paths::has_extension(path, "pc")
}

/// What is recorded of a backup.
#[derive(Debug)]
pub struct BackupMetadata {
    pub vehicle_key: String,
    pub vehicle_name: String,
    pub original_path: String,
    pub backup_path: String,
    /// Creation time, in milliseconds since the Unix epoch.
    pub created_at_ms: i64,
    pub file_size: u64,
    pub checksum: String,
    pub reason: String,
    pub version: u32,
}

/// The mathematical form of backup metadata.
pub struct BackupInfo {
    pub vehicle_key: Seq<char>,
    pub vehicle_name: Seq<char>,
    pub original_path: Seq<char>,
    pub backup_path: Seq<char>,
    pub created_at_ms: i64,
    pub file_size: u64,
    pub checksum: Seq<char>,
    pub reason: Seq<char>,
    pub version: u32,
}

impl View for BackupMetadata {
    type V = BackupInfo;

    open spec fn view(&self) -> BackupInfo {
        BackupInfo {
            vehicle_key: self.vehicle_key@,
            vehicle_name: self.vehicle_name@,
            original_path: self.original_path@,
            backup_path: self.backup_path@,
            created_at_ms: self.created_at_ms,
            file_size: self.file_size,
            checksum: self.checksum@,
            reason: self.reason@,
            version: self.version,
        }
    }
}

/// The views of a list of backups.
pub open spec fn infos(v: Seq<BackupMetadata>) -> Seq<BackupInfo> {
    v.map_values(|m: BackupMetadata| m@)
}

impl BackupMetadata {
    /// A copy of the metadata.
    pub fn copy(&self) -> (r: BackupMetadata)
        ensures
            r@ == self@,
    {
        BackupMetadata {
            vehicle_key: self.vehicle_key.clone(),
            vehicle_name: self.vehicle_name.clone(),
            original_path: self.original_path.clone(),
            backup_path: self.backup_path.clone(),
            created_at_ms: self.created_at_ms,
            file_size: self.file_size,
            checksum: self.checksum.clone(),
            reason: self.reason.clone(),
            version: self.version,
        }
    }

    /// The metadata of a backup just written: `backup_path` holds a copy of
    /// `original_path` whose bytes are `content`.
    pub fn for_new_backup(
        backup_path: &str,
        original_path: &str,
        vehicle_key: &str,
        vehicle_name: &str,
        reason: &str,
        version: u32,
        content: &[u8],
        created_at_ms: i64,
    ) -> (m: BackupMetadata)
        ensures
            m@ == (BackupInfo {
                vehicle_key: vehicle_key@,
                vehicle_name: vehicle_name@,
                original_path: original_path@,
                backup_path: backup_path@,
                created_at_ms,
                file_size: content@.len() as u64,
                checksum: hex_lower(sha256_of(content@)),
                reason: reason@,
                version,
            }),
    {
        BackupMetadata {
            vehicle_key: vehicle_key.to_owned(),
            vehicle_name: vehicle_name.to_owned(),
            original_path: original_path.to_owned(),
            backup_path: backup_path.to_owned(),
            created_at_ms,
            file_size: content.len() as u64,
            checksum: checksum_bytes(content),
            reason: reason.to_owned(),
            version,
        }
    }

    /// The metadata of a backup file found without its side-car: named after
    /// its vehicle key, with reason `imported`, version 0 and no original path.
    pub fn imported(backup_path: &str, vehicle_key: &str, content: &[u8], modified_at_ms: i64) -> (m:
        BackupMetadata)
        ensures
            m@ == (BackupInfo {
                vehicle_key: vehicle_key@,
                vehicle_name: vehicle_key@,
                original_path: Seq::empty(),
                backup_path: backup_path@,
                created_at_ms: modified_at_ms,
                file_size: content@.len() as u64,
                checksum: hex_lower(sha256_of(content@)),
                reason: "imported"@,
                version: 0,
            }),
    {
        BackupMetadata {
            vehicle_key: vehicle_key.to_owned(),
            vehicle_name: vehicle_key.to_owned(),
            original_path: String::new(),
            backup_path: backup_path.to_owned(),
            created_at_ms: modified_at_ms,
            file_size: content.len() as u64,
            checksum: checksum_bytes(content),
            reason: "imported".to_owned(),
            version: 0,
        }
    }
}

// ---------------------------------------------------------------------------
// Ordering backups by time
// ---------------------------------------------------------------------------

/// `x` put after every backup not newer than it (stable insertion).
pub open spec fn insert_by_time(s: Seq<BackupInfo>, x: BackupInfo) -> Seq<BackupInfo>
    decreases s.len(),
{
    if s.len() == 0 {
        seq![x]
    } else if x.created_at_ms < s[0].created_at_ms {
        seq![x] + s
    } else {
        seq![s[0]] + insert_by_time(s.drop_first(), x)
    }
}

/// Backups in creation order; backups created at the same time keep their order.
pub open spec fn sort_by_time(s: Seq<BackupInfo>) -> Seq<BackupInfo>
    decreases s.len(),
{
    if s.len() == 0 {
        s
    } else {
        insert_by_time(sort_by_time(s.drop_last()), s.last())
    }
}

/// Backups in non-decreasing creation time.
pub open spec fn time_sorted(s: Seq<BackupInfo>) -> bool {
    forall|i: int, j: int| 0 <= i < j < s.len() ==> s[i].created_at_ms <= s[j].created_at_ms
}

proof fn lemma_insert_by_time_at(s: Seq<BackupInfo>, x: BackupInfo, j: int)
    requires
        0 <= j <= s.len(),
        forall|k: int| 0 <= k < j ==> !(x.created_at_ms < #[trigger] s[k].created_at_ms),
        j < s.len() ==> x.created_at_ms < s[j].created_at_ms,
    ensures
        insert_by_time(s, x) == s.insert(j, x),
    decreases j,
{
    if j > 0 {
        let t = s.drop_first();
        assert forall|k: int| 0 <= k < j - 1 implies !(x.created_at_ms < #[trigger] t[k].created_at_ms) by {
            assert(t[k] == s[k + 1]);
        }
        if j < s.len() {
            assert(t[j - 1] == s[j]);
        }
        lemma_insert_by_time_at(t, x, j - 1);
        assert(insert_by_time(s, x) =~= s.insert(j, x));
    } else {
        if s.len() > 0 {
            assert(insert_by_time(s, x) =~= s.insert(0, x));
        } else {
            assert(insert_by_time(s, x) =~= s.insert(0, x));
        }
    }
}

/// Sorting keeps the backups sorted.
pub proof fn lemma_sort_by_time_sorted(s: Seq<BackupInfo>)
    ensures
        time_sorted(sort_by_time(s)),
        sort_by_time(s).len() == s.len(),
    decreases s.len(),
{
    if s.len() > 0 {
        lemma_sort_by_time_sorted(s.drop_last());
        let r = sort_by_time(s.drop_last());
        let x = s.last();
        let j = first_later(r, x);
        lemma_first_later(r, x);
        lemma_insert_by_time_at(r, x, j);
        let n = r.insert(j, x);
        assert forall|a: int, b: int| 0 <= a < b < n.len() implies n[a].created_at_ms <= n[b].created_at_ms by {
            if a < j && b == j {
                assert(!(x.created_at_ms < r[a].created_at_ms));
            } else if a == j && b > j {
                assert(x.created_at_ms < r[j].created_at_ms);
                assert(r[j].created_at_ms <= r[b - 1].created_at_ms || j == b - 1);
            } else if a < j && b > j {
                assert(r[a].created_at_ms <= r[b - 1].created_at_ms);
            } else if a > j {
                assert(r[a - 1].created_at_ms <= r[b - 1].created_at_ms);
            }
        }
    }
}

/// Index of the first backup newer than `x` in a sorted list.
spec fn first_later(r: Seq<BackupInfo>, x: BackupInfo) -> int
    decreases r.len(),
{
    if r.len() == 0 {
        0
    } else if x.created_at_ms < r[0].created_at_ms {
        0
    } else {
        1 + first_later(r.drop_first(), x)
    }
}

proof fn lemma_first_later(r: Seq<BackupInfo>, x: BackupInfo)
    requires
        time_sorted(r),
    ensures
        0 <= first_later(r, x) <= r.len(),
        forall|k: int| 0 <= k < first_later(r, x) ==> !(x.created_at_ms < #[trigger] r[k].created_at_ms),
        first_later(r, x) < r.len() ==> x.created_at_ms < r[first_later(r, x)].created_at_ms,
    decreases r.len(),
{
    if r.len() > 0 && !(x.created_at_ms < r[0].created_at_ms) {
        let t = r.drop_first();
        assert(time_sorted(t)) by {
            assert forall|i: int, j: int| 0 <= i < j < t.len() implies t[i].created_at_ms <= t[j].created_at_ms by {
                assert(r[i + 1].created_at_ms <= r[j + 1].created_at_ms);
            }
        }
        lemma_first_later(t, x);
        assert forall|k: int| 0 <= k < first_later(r, x) implies !(x.created_at_ms < #[trigger] r[k].created_at_ms) by {
            if k > 0 {
                assert(r[k] == t[k - 1]);
            }
        }
    }
}

/// Sorting backups by creation time lists them oldest first and keeps
/// exactly the backups given, each as often as given.
pub proof fn law_sort_by_time(s: Seq<BackupInfo>)
    ensures
        forall|i: int, j: int|
            0 <= i < j < sort_by_time(s).len() ==> (#[trigger] sort_by_time(s)[i]).created_at_ms
                <= (#[trigger] sort_by_time(s)[j]).created_at_ms,
        sort_by_time(s).to_multiset() == s.to_multiset(),
    decreases s.len(),
{
    lemma_sort_by_time_sorted(s);
    if s.len() > 0 {
        let d = s.drop_last();
        law_sort_by_time(d);
        lemma_sort_by_time_sorted(d);
        let r = sort_by_time(d);
        let x = s.last();
        let j = first_later(r, x);
        lemma_first_later(r, x);
        lemma_insert_by_time_at(r, x, j);
        vstd::seq_lib::to_multiset_insert(r, j, x);
        vstd::seq_lib::to_multiset_build(d, x);
        assert(s == d.push(x));
    }
}

/// The backups of one vehicle in creation order (stable).
pub fn sort_backups(v: Vec<BackupMetadata>) -> (r: Vec<BackupMetadata>)
    ensures
        infos(r@) == sort_by_time(infos(v@)),
{
    let ghost orig = infos(v@);
    let mut rest = v;
    let mut out: Vec<BackupMetadata> = Vec::new();
    let ghost mut taken: int = 0;
    while rest.len() > 0
        invariant
            0 <= taken <= orig.len(),
            infos(rest@) == orig.skip(taken),
            infos(out@) == sort_by_time(orig.take(taken)),
        decreases rest@.len(),
    {
        let ghost old_rest = rest@;
        let x = rest.remove(0);
        proof {
            old_rest.remove_ensures(0);
            assert(infos(old_rest) == orig.skip(taken));
            assert(infos(old_rest).len() == old_rest.len());
            assert(taken < orig.len());
            assert(x == old_rest[0]);
            assert(infos(old_rest)[0] == old_rest[0]@);
            assert(infos(old_rest)[0] == orig.skip(taken)[0]);
            assert(x@ == orig[taken]);
            assert forall|k: int| 0 <= k < infos(rest@).len() implies infos(rest@)[k] == orig.skip(taken + 1)[k] by {
                assert(rest@[k] == old_rest[k + 1]);
                assert(infos(rest@)[k] == rest@[k]@);
                assert(infos(old_rest)[k + 1] == old_rest[k + 1]@);
                assert(infos(old_rest)[k + 1] == orig.skip(taken)[k + 1]);
            }
            assert(infos(rest@) =~= orig.skip(taken + 1));
            lemma_sort_by_time_sorted(orig.take(taken));
            assert(orig.take(taken + 1).drop_last() =~= orig.take(taken));
            assert(orig.take(taken + 1).last() == orig[taken]);
        }
        let mut j: usize = 0;
        while j < out.len() && !(x.created_at_ms < out[j].created_at_ms)
            invariant
                j <= out@.len(),
                forall|k: int| 0 <= k < j ==> !(x.created_at_ms < #[trigger] out@[k].created_at_ms),
            decreases out@.len() - j,
        {
            j = j + 1;
        }
        let ghost before = infos(out@);
        proof {
            assert forall|k: int| 0 <= k < j implies !(x@.created_at_ms < #[trigger] before[k].created_at_ms) by {
                assert(before[k] == out@[k]@);
            }
            if j < out@.len() {
                assert(before[j as int] == out@[j as int]@);
            }
            lemma_insert_by_time_at(before, x@, j as int);
        }
        let ghost xv = x@;
        out.insert(j, x);
        proof {
            assert(infos(out@) =~= before.insert(j as int, xv));
            taken = taken + 1;
        }
    }
    assert(orig.take(taken) =~= orig) by {
        assert(orig.skip(taken).len() == 0);
    }
    out
}

// ---------------------------------------------------------------------------
// The index
// ---------------------------------------------------------------------------

/// Keys strictly increasing.
pub open spec fn index_sorted(es: Seq<(String, Vec<BackupMetadata>)>) -> bool {
    forall|i: int, j: int| 0 <= i < j < es.len() ==> seq_lt(#[trigger] es[i].0@, #[trigger] es[j].0@)
}

/// All backups, per vehicle key (in key order).
#[derive(Debug)]
pub struct BackupIndex {
    by_vehicle: Vec<(String, Vec<BackupMetadata>)>,
}

/// The backups listed for a key, none when absent.
pub open spec fn backups_under(es: Seq<(String, Vec<BackupMetadata>)>, key: Seq<char>) -> Seq<BackupInfo>
    decreases es.len(),
{
    if es.len() == 0 {
        Seq::empty()
    } else if es[0].0@ == key {
        infos(es[0].1@)
    } else {
        backups_under(es.drop_first(), key)
    }
}

proof fn lemma_backups_under_at(es: Seq<(String, Vec<BackupMetadata>)>, key: Seq<char>, i: int)
    requires
        0 <= i <= es.len(),
        forall|k: int| 0 <= k < i ==> #[trigger] es[k].0@ != key,
        i < es.len() ==> es[i].0@ == key,
    ensures
        i < es.len() ==> backups_under(es, key) == infos(es[i].1@),
        i == es.len() ==> backups_under(es, key) == Seq::<BackupInfo>::empty(),
    decreases i,
{
    if i > 0 {
        let t = es.drop_first();
        assert forall|k: int| 0 <= k < i - 1 implies #[trigger] t[k].0@ != key by {
            assert(t[k] == es[k + 1]);
        }
        lemma_backups_under_at(t, key, i - 1);
    }
}

impl BackupIndex {
    #[verifier::type_invariant]
    spec fn sorted(self) -> bool {
        index_sorted(self.by_vehicle@)
    }

    /// The vehicle keys and their backups, in key order.
    pub closed spec fn entries(self) -> Seq<(Seq<char>, Seq<BackupInfo>)> {
        self.by_vehicle@.map_values(|e: (String, Vec<BackupMetadata>)| (e.0@, infos(e.1@)))
    }

    /// The backups of a vehicle key (none when absent).
    pub closed spec fn backups(self, key: Seq<char>) -> Seq<BackupInfo> {
        backups_under(self.by_vehicle@, key)
    }

    /// An empty index.
    pub fn new() -> (r: BackupIndex)
        ensures
            r.entries().len() == 0,
            forall|k: Seq<char>| #[trigger] r.backups(k).len() == 0,
    {
        let r = BackupIndex { by_vehicle: Vec::new() };
        assert(r.entries() =~= Seq::<(Seq<char>, Seq<BackupInfo>)>::empty());
        r
    }

    /// Position of `key`, or where it would go, and whether it is there.
    fn locate(&self, key: &str) -> (r: (usize, bool))
        ensures
            r.0 <= self.by_vehicle@.len(),
            forall|k: int| 0 <= k < r.0 ==> seq_lt(#[trigger] self.by_vehicle@[k].0@, key@),
            r.1 ==> r.0 < self.by_vehicle@.len() && self.by_vehicle@[r.0 as int].0@ == key@,
            !r.1 ==> (r.0 < self.by_vehicle@.len() ==> seq_lt(key@, self.by_vehicle@[r.0 as int].0@)),
    {
        proof {
            use_type_invariant(self);
        }
        let mut i: usize = 0;
        while i < self.by_vehicle.len() && str_lt(self.by_vehicle[i].0.as_str(), key)
            invariant
                i <= self.by_vehicle@.len(),
                forall|k: int| 0 <= k < i ==> seq_lt(#[trigger] self.by_vehicle@[k].0@, key@),
            decreases self.by_vehicle@.len() - i,
        {
            i = i + 1;
        }
        if i < self.by_vehicle.len() {
            let found = str_eq(self.by_vehicle[i].0.as_str(), key);
            proof {
                if !found {
                    lemma_seq_lt_total(self.by_vehicle@[i as int].0@, key@);
                }
            }
            (i, found)
        } else {
            (i, false)
        }
    }

    /// The backups of a vehicle (none when it has no entry).
    pub fn backups_for(&self, vehicle_key: &str) -> (r: &[BackupMetadata])
        ensures
            infos(r@) == self.backups(vehicle_key@),
    {
        proof {
            use_type_invariant(self);
        }
        let (i, found) = self.locate(vehicle_key);
        proof {
            assert forall|k: int| 0 <= k < i implies #[trigger] self.by_vehicle@[k].0@ != vehicle_key@ by {
                lemma_seq_lt_irreflexive(vehicle_key@);
            }
        }
        if found {
            proof {
                lemma_backups_under_at(self.by_vehicle@, vehicle_key@, i as int);
            }
            self.by_vehicle[i].1.as_slice()
        } else {
            proof {
                let es = self.by_vehicle@;
                let mut j = i as int;
                assert forall|k: int| 0 <= k < es.len() implies #[trigger] es[k].0@ != vehicle_key@ by {
                    if k >= i {
                        if k > i {
                            assert(seq_lt(es[i as int].0@, es[k].0@));
                            lemma_seq_lt_transitive(vehicle_key@, es[i as int].0@, es[k].0@);
                        }
                        lemma_seq_lt_irreflexive(vehicle_key@);
                    }
                }
                lemma_backups_under_at(es, vehicle_key@, es.len() as int);
            }
            let empty: &[BackupMetadata] = &[];
            assert(infos(empty@) =~= Seq::<BackupInfo>::empty());
            empty
        }
    }

    /// The newest backup of a vehicle (the last listed).
    pub fn latest_for(&self, vehicle_key: &str) -> (r: Option<&BackupMetadata>)
        ensures
            match r {
                Some(m) => self.backups(vehicle_key@).len() > 0 && m@ == self.backups(vehicle_key@).last(),
                None => self.backups(vehicle_key@).len() == 0,
            },
    {
        let list = self.backups_for(vehicle_key);
        if list.len() == 0 {
            None
        } else {
            Some(&list[list.len() - 1])
        }
    }

    /// The vehicle keys that have an entry, in key order.
    pub fn vehicle_keys(&self) -> (r: Vec<String>)
        ensures
            crate::text::views(r@) == self.entries().map_values(|e: (Seq<char>, Seq<BackupInfo>)| e.0),
            forall|a: int, b: int| 0 <= a < b < r@.len() ==> seq_lt(#[trigger] r@[a]@, #[trigger] r@[b]@),
    {
        proof {
            use_type_invariant(self);
        }
        let mut out: Vec<String> = Vec::new();
        let mut i: usize = 0;
        while i < self.by_vehicle.len()
            invariant
                i <= self.by_vehicle@.len(),
                crate::text::views(out@) == self.entries().map_values(|e: (Seq<char>, Seq<BackupInfo>)| e.0).take(i as int),
                index_sorted(self.by_vehicle@),
                out@.len() == i,
                forall|a: int| 0 <= a < i ==> #[trigger] out@[a]@ == self.by_vehicle@[a].0@,
            decreases self.by_vehicle@.len() - i,
        {
            let ghost prev = crate::text::views(out@);
            out.push(self.by_vehicle[i].0.clone());
            assert(crate::text::views(out@) =~= prev.push(self.by_vehicle@[i as int].0@));
            assert(out@[i as int]@ == self.by_vehicle@[i as int].0@);
            assert(self.entries().map_values(|e: (Seq<char>, Seq<BackupInfo>)| e.0).take(i + 1) =~= prev.push(
                self.by_vehicle@[i as int].0@,
            ));
            i = i + 1;
        }
        assert(self.entries().map_values(|e: (Seq<char>, Seq<BackupInfo>)| e.0).take(
            self.by_vehicle@.len() as int,
        ) =~= self.entries().map_values(|e: (Seq<char>, Seq<BackupInfo>)| e.0));
        assert forall|a: int, b: int| 0 <= a < b < out@.len() implies seq_lt(#[trigger] out@[a]@, #[trigger] out@[b]@) by {
            assert(seq_lt(self.by_vehicle@[a].0@, self.by_vehicle@[b].0@));
        }
        out
    }

    /// Every backup, vehicle after vehicle in key order.
    pub fn all_backups(&self) -> (r: Vec<&BackupMetadata>)
        ensures
            ref_infos(r@) == self.entries().map_values(
                |e: (Seq<char>, Seq<BackupInfo>)| e.1,
            ).flatten(),
    {
        let mut out: Vec<&BackupMetadata> = Vec::new();
        let ghost groups = self.entries().map_values(|e: (Seq<char>, Seq<BackupInfo>)| e.1);
        let mut i: usize = 0;
        while i < self.by_vehicle.len()
            invariant
                i <= self.by_vehicle@.len(),
                groups == self.entries().map_values(|e: (Seq<char>, Seq<BackupInfo>)| e.1),
                ref_infos(out@) == groups.take(i as int).flatten(),
            decreases self.by_vehicle@.len() - i,
        {
            let list = &self.by_vehicle[i].1;
            let ghost base = ref_infos(out@);
            let mut j: usize = 0;
            while j < list.len()
                invariant
                    j <= list@.len(),
                    ref_infos(out@) == base + infos(list@).take(j as int),
                decreases list@.len() - j,
            {
                let ghost prev = out@;
                out.push(&list[j]);
                proof {
                    assert(ref_infos(out@) =~= ref_infos(prev).push(list@[j as int]@));
                    assert(infos(list@).take(j + 1) =~= infos(list@).take(j as int).push(list@[j as int]@));
                }
                j = j + 1;
            }
            proof {
                assert(infos(list@).take(list@.len() as int) =~= infos(list@));
                assert(groups[i as int] == infos(list@));
                assert(groups.take(i + 1) =~= groups.take(i as int).push(groups[i as int]));
                lemma_flatten_push(groups.take(i as int), groups[i as int]);
            }
            i = i + 1;
        }
        assert(groups.take(self.by_vehicle@.len() as int) =~= groups);
        out
    }

    /// Sets the backups of a vehicle.
    pub fn set_vehicle(&mut self, vehicle_key: String, backups: Vec<BackupMetadata>)
        ensures
            final(self).backups(vehicle_key@) == infos(backups@),
            forall|k: Seq<char>| k != vehicle_key@ ==> #[trigger] final(self).backups(k) == old(self).backups(k),
    {
        proof {
            use_type_invariant(&*self);
        }
        let (i, found) = self.locate(vehicle_key.as_str());
        let mut es: Vec<(String, Vec<BackupMetadata>)> = Vec::new();
        std::mem::swap(&mut es, &mut self.by_vehicle);
        let ghost old_es = es@;
        let ghost key = vehicle_key@;
        let ghost new_infos = infos(backups@);
        if found {
            es.set(i, (vehicle_key, backups));
        } else {
            es.insert(i, (vehicle_key, backups));
        }
        proof {
            let n = es@;
            assert(n[i as int].0@ == key);
            assert(infos(n[i as int].1@) == new_infos);
            assert(index_sorted(n)) by {
                assert forall|a: int, b: int| 0 <= a < b < n.len() implies seq_lt(#[trigger] n[a].0@, #[trigger] n[b].0@) by {
                    if found {
                        assert(seq_lt(old_es[a].0@, old_es[b].0@));
                    } else if a < i && b == i {
                    } else if a < i && b > i {
                        assert(seq_lt(old_es[a].0@, old_es[b - 1].0@));
                    } else if a == i && b > i {
                        if b - 1 > i {
                            assert(seq_lt(old_es[i as int].0@, old_es[b - 1].0@));
                            lemma_seq_lt_transitive(key, old_es[i as int].0@, old_es[b - 1].0@);
                        }
                    } else if a > i {
                        assert(seq_lt(old_es[a - 1].0@, old_es[b - 1].0@));
                    } else {
                        assert(seq_lt(old_es[a].0@, old_es[b].0@));
                    }
                }
            }
            assert forall|k: int| 0 <= k < i implies #[trigger] n[k].0@ != key by {
                assert(n[k] == old_es[k]);
                lemma_seq_lt_irreflexive(key);
            }
            lemma_backups_under_at(n, key, i as int);
            assert forall|k2: Seq<char>| k2 != key implies #[trigger] backups_under(n, k2) == backups_under(old_es, k2) by {
                lemma_backups_under_other(old_es, n, i as int, found, k2);
            }
        }
        self.by_vehicle = es;
    }

    /// Adds a backup at the end of a vehicle's list.
    pub fn push_backup(&mut self, meta: BackupMetadata)
        ensures
            final(self).backups(meta.vehicle_key@) == old(self).backups(meta.vehicle_key@).push(meta@),
            forall|k: Seq<char>| k != meta.vehicle_key@ ==> #[trigger] final(self).backups(k) == old(self).backups(k),
    {
        let key = meta.vehicle_key.clone();
        let existing = self.backups_for(key.as_str());
        let mut list: Vec<BackupMetadata> = Vec::new();
        let mut j: usize = 0;
        while j < existing.len()
            invariant
                j <= existing@.len(),
                infos(list@) == infos(existing@).take(j as int),
            decreases existing@.len() - j,
        {
            let c = existing[j].copy();
            let ghost prev = list@;
            list.push(c);
            proof {
                assert(infos(list@) =~= infos(prev).push(existing@[j as int]@));
                assert(infos(existing@).take(j + 1) =~= infos(existing@).take(j as int).push(existing@[j as int]@));
            }
            j = j + 1;
        }
        assert(infos(existing@).take(existing@.len() as int) =~= infos(existing@));
        let ghost mv = meta@;
        list.push(meta);
        assert(infos(list@) =~= infos(existing@).push(mv));
        self.set_vehicle(key, list);
    }

    /// Whether a vehicle has no backup yet (an initial backup is then due).
    pub fn needs_initial_backup(&self, vehicle_key: &str) -> (r: bool)
        ensures
            r == (self.backups(vehicle_key@).len() == 0),
    {
        self.backups_for(vehicle_key).len() == 0
    }

    /// What "restore all" restores: for every vehicle with backups, in key
    /// order, its earliest backup.
    pub fn restore_all_plan(&self) -> (r: Vec<(String, BackupMetadata)>)
        ensures
            plan_view(r@) == earliest_per_vehicle(self.entries()),
            forall|a: int, b: int| 0 <= a < b < r@.len() ==> seq_lt(#[trigger] r@[a].0@, #[trigger] r@[b].0@),
    {
        proof {
            use_type_invariant(self);
        }
        let mut out: Vec<(String, BackupMetadata)> = Vec::new();
        let ghost es = self.entries();
        let mut i: usize = 0;
        while i < self.by_vehicle.len()
            invariant
                i <= self.by_vehicle@.len(),
                es == self.entries(),
                index_sorted(self.by_vehicle@),
                plan_view(out@) == earliest_per_vehicle(es.take(i as int)),
                forall|a: int, b: int| 0 <= a < b < out@.len() ==> seq_lt(#[trigger] out@[a].0@, #[trigger] out@[b].0@),
                forall|a: int, j: int|
                    0 <= a < out@.len() && i <= j < self.by_vehicle@.len() ==> seq_lt(
                        #[trigger] out@[a].0@,
                        #[trigger] self.by_vehicle@[j].0@,
                    ),
            decreases self.by_vehicle@.len() - i,
        {
            let entry = &self.by_vehicle[i];
            proof {
                assert(es.take(i + 1).drop_last() =~= es.take(i as int));
                assert(es[i as int] == (entry.0@, infos(entry.1@)));
            }
            if entry.1.len() > 0 {
                let first = entry.1[0].copy();
                let ghost prev = out@;
                out.push((entry.0.clone(), first));
                proof {
                    assert(plan_view(out@) =~= plan_view(prev).push((entry.0@, infos(entry.1@)[0])));
                    assert forall|a: int, b: int| 0 <= a < b < out@.len() implies seq_lt(
                        #[trigger] out@[a].0@,
                        #[trigger] out@[b].0@,
                    ) by {
                        if b == prev.len() {
                            assert(out@[a] == prev[a]);
                            assert(seq_lt(prev[a].0@, self.by_vehicle@[i as int].0@));
                        } else {
                            assert(out@[a] == prev[a] && out@[b] == prev[b]);
                        }
                    }
                    assert forall|a: int, j: int|
                        0 <= a < out@.len() && i + 1 <= j < self.by_vehicle@.len() implies seq_lt(
                        #[trigger] out@[a].0@,
                        #[trigger] self.by_vehicle@[j].0@,
                    ) by {
                        if a == prev.len() {
                            assert(seq_lt(self.by_vehicle@[i as int].0@, self.by_vehicle@[j].0@));
                        } else {
                            assert(out@[a] == prev[a]);
                        }
                    }
                }
            }
            i = i + 1;
        }
        assert(es.take(self.by_vehicle@.len() as int) =~= es);
        out
    }
}

/// The views of a list of borrowed backups.
pub open spec fn ref_infos(v: Seq<&BackupMetadata>) -> Seq<BackupInfo> {
    v.map_values(|m: &BackupMetadata| m@)
}

/// The views of a restore plan.
pub open spec fn plan_view(v: Seq<(String, BackupMetadata)>) -> Seq<(Seq<char>, BackupInfo)> {
    v.map_values(|p: (String, BackupMetadata)| (p.0@, p.1@))
}

/// For each vehicle with at least one backup, in order, its key and earliest backup.
pub open spec fn earliest_per_vehicle(es: Seq<(Seq<char>, Seq<BackupInfo>)>) -> Seq<(Seq<char>, BackupInfo)>
    decreases es.len(),
{
    if es.len() == 0 {
        Seq::empty()
    } else {
        let r = earliest_per_vehicle(es.drop_last());
        if es.last().1.len() > 0 {
            r.push((es.last().0, es.last().1[0]))
        } else {
            r
        }
    }
}

/// The first entry listed under `key`, when it has backups.
proof fn lemma_first_with_key(es: Seq<(String, Vec<BackupMetadata>)>, key: Seq<char>) -> (i: int)
    requires
        backups_under(es, key).len() > 0,
    ensures
        0 <= i < es.len(),
        es[i].0@ == key,
        forall|k: int| 0 <= k < i ==> #[trigger] es[k].0@ != key,
    decreases es.len(),
{
    if es[0].0@ == key {
        0
    } else {
        let t = es.drop_first();
        let j = lemma_first_with_key(t, key);
        assert forall|k: int| 0 <= k < j + 1 implies #[trigger] es[k].0@ != key by {
            if k > 0 {
                assert(es[k] == t[k - 1]);
            }
        }
        assert(es[j + 1] == t[j]);
        j + 1
    }
}

/// Each vehicle with backups has its earliest one in the restore plan.
proof fn lemma_plan_holds(es: Seq<(Seq<char>, Seq<BackupInfo>)>, i: int)
    requires
        0 <= i < es.len(),
        es[i].1.len() > 0,
    ensures
        earliest_per_vehicle(es).contains((es[i].0, es[i].1[0])),
    decreases es.len(),
{
    let r = earliest_per_vehicle(es.drop_last());
    if i == es.len() - 1 {
        assert(earliest_per_vehicle(es) == r.push((es.last().0, es.last().1[0])));
        assert(earliest_per_vehicle(es).last() == (es[i].0, es[i].1[0]));
    } else {
        lemma_plan_holds(es.drop_last(), i);
        assert(es.drop_last()[i] == es[i]);
        let x = (es[i].0, es[i].1[0]);
        let k = choose|k: int| 0 <= k < r.len() && r[k] == x;
        if es.last().1.len() > 0 {
            assert(earliest_per_vehicle(es)[k] == x);
        } else {
            assert(earliest_per_vehicle(es)[k] == x);
        }
    }
}

impl BackupIndex {
    /// "Restore latest" restores the newest backup: when a vehicle's backups
    /// are listed oldest first (as [`BackupIndex::load_vehicle`] lists them,
    /// see [`lemma_sort_by_time_sorted`]), the last one listed, which
    /// [`BackupIndex::latest_for`] returns, is no older than any of them.
    pub proof fn law_latest_is_newest(self, key: Seq<char>)
        requires
            time_sorted(self.backups(key)),
            self.backups(key).len() > 0,
        ensures
            forall|b: int|
                0 <= b < self.backups(key).len() ==> #[trigger] self.backups(key)[b].created_at_ms
                    <= self.backups(key).last().created_at_ms,
    {
        let n = self.backups(key).len();
        assert forall|b: int| 0 <= b < n implies #[trigger] self.backups(key)[b].created_at_ms
            <= self.backups(key).last().created_at_ms by {
            if b < n - 1 {
                assert(self.backups(key)[b].created_at_ms <= self.backups(key)[n - 1].created_at_ms);
            }
        }
    }

    /// "Restore all" restores the earliest backup of every vehicle: when a
    /// vehicle's backups are listed oldest first (as
    /// [`BackupIndex::load_vehicle`] lists them), the plan holds, for that
    /// vehicle, its first listed backup, which is no newer than any of its
    /// backups.
    pub proof fn law_restore_all_takes_earliest(self, key: Seq<char>)
        requires
            time_sorted(self.backups(key)),
            self.backups(key).len() > 0,
        ensures
            exists|p: int|
                0 <= p < earliest_per_vehicle(self.entries()).len() && (#[trigger] earliest_per_vehicle(
                    self.entries(),
                )[p]).0 == key && earliest_per_vehicle(self.entries())[p].1 == self.backups(key)[0] && forall|b: int|
                    0 <= b < self.backups(key).len() ==> earliest_per_vehicle(self.entries())[p].1.created_at_ms
                        <= #[trigger] self.backups(key)[b].created_at_ms,
    {
        let es = self.by_vehicle@;
        let i = lemma_first_with_key(es, key);
        lemma_backups_under_at(es, key, i);
        let m = self.entries();
        assert(m[i] == (es[i].0@, infos(es[i].1@)));
        lemma_plan_holds(m, i);
        let plan = earliest_per_vehicle(m);
        let p = choose|p: int| 0 <= p < plan.len() && plan[p] == (m[i].0, m[i].1[0]);
        assert(plan[p].0 == key);
        assert forall|b: int| 0 <= b < self.backups(key).len() implies plan[p].1.created_at_ms
            <= #[trigger] self.backups(key)[b].created_at_ms by {
            if b > 0 {
                assert(self.backups(key)[0].created_at_ms <= self.backups(key)[b].created_at_ms);
            }
        }
    }
}

proof fn lemma_flatten_push(gs: Seq<Seq<BackupInfo>>, g: Seq<BackupInfo>)
    ensures
        gs.push(g).flatten() == gs.flatten() + g,
{
    gs.lemma_flatten_push(g);
}

proof fn lemma_backups_under_other(
    old_es: Seq<(String, Vec<BackupMetadata>)>,
    n: Seq<(String, Vec<BackupMetadata>)>,
    i: int,
    found: bool,
    k2: Seq<char>,
)
    requires
        index_sorted(old_es),
        index_sorted(n),
        0 <= i <= old_es.len(),
        found ==> i < old_es.len() && n.len() == old_es.len() && n[i].0@ == old_es[i].0@ && forall|k: int|
            0 <= k < n.len() && k != i ==> n[k] == old_es[k],
        !found ==> n.len() == old_es.len() + 1 && (forall|k: int| 0 <= k < i ==> n[k] == old_es[k]) && (
        forall|k: int| i < k < n.len() ==> n[k] == old_es[k - 1]),
        k2 != n[i].0@,
    ensures
        backups_under(n, k2) == backups_under(old_es, k2),
{
    let pos_old = index_of_key(old_es, k2);
    lemma_index_of_key(old_es, k2);
    if pos_old < old_es.len() {
        let p = if found || pos_old < i { pos_old } else { pos_old + 1 };
        assert(n[p] == old_es[pos_old]);
        assert forall|k: int| 0 <= k < p implies #[trigger] n[k].0@ != k2 by {
            if k < p {
                assert(seq_lt(n[k].0@, n[p].0@));
                lemma_seq_lt_irreflexive(k2);
            }
        }
        lemma_backups_under_at(n, k2, p);
        lemma_backups_under_at(old_es, k2, pos_old);
    } else {
        assert forall|k: int| 0 <= k < n.len() implies #[trigger] n[k].0@ != k2 by {
            if k != i {
                if found || k < i {
                    assert(n[k] == old_es[k]);
                } else {
                    assert(n[k] == old_es[k - 1]);
                }
            }
        }
        lemma_backups_under_at(n, k2, n.len() as int);
        lemma_backups_under_at(old_es, k2, old_es.len() as int);
    }
}

spec fn index_of_key(es: Seq<(String, Vec<BackupMetadata>)>, k: Seq<char>) -> int
    decreases es.len(),
{
    if es.len() == 0 {
        0
    } else if es[0].0@ == k {
        0
    } else {
        1 + index_of_key(es.drop_first(), k)
    }
}

proof fn lemma_index_of_key(es: Seq<(String, Vec<BackupMetadata>)>, k: Seq<char>)
    ensures
        0 <= index_of_key(es, k) <= es.len(),
        forall|j: int| 0 <= j < index_of_key(es, k) ==> #[trigger] es[j].0@ != k,
        index_of_key(es, k) < es.len() ==> es[index_of_key(es, k)].0@ == k,
    decreases es.len(),
{
    if es.len() > 0 && es[0].0@ != k {
        lemma_index_of_key(es.drop_first(), k);
        assert forall|j: int| 0 <= j < index_of_key(es, k) implies #[trigger] es[j].0@ != k by {
            if j > 0 {
                assert(es[j] == es.drop_first()[j - 1]);
            }
        }
    }
}

/// The message of a restore whose backup file is missing.
pub fn missing_backup_message(backup_path: &str) -> (r: AppError)
    ensures
        r.message@ == "Backup file missing: "@ + backup_path@,
{
    AppError::msg(concat("Backup file missing: ", backup_path))
}

// ---------------------------------------------------------------------------
// The clock
// ---------------------------------------------------------------------------

/// Whether numbers are a local date and time as the clock gives them: a
/// year from 1969 on (the clock is never before the Unix epoch, and a local
/// offset is under a day), a month, a day of the month, an hour, a minute
/// and a second.
pub open spec fn local_time_ok(y: int, mo: int, d: int, h: int, mi: int, s: int) -> bool {
    1969 <= y && 1 <= mo <= 12 && 1 <= d <= 31 && 0 <= h <= 23 && 0 <= mi <= 59 && 0 <= s <= 59
}

#[verifier::external_type_specification]
#[verifier::external_body]
pub struct ExSystemTime(std::time::SystemTime);

/// Calls `SystemTime::now`; nothing is stated of the moment it returns.
#[verifier::external_body]
fn system_now() -> (r: std::time::SystemTime) {
    std::time::SystemTime::now()
}

/// Calls `SystemTime::duration_since` with `UNIX_EPOCH`, keeping the span
/// and dropping the error (a moment before the epoch); nothing is stated of
/// which it is.
#[verifier::external_body]
fn since_unix_epoch(t: &std::time::SystemTime) -> (r: Option<core::time::Duration>) {
    t.duration_since(std::time::UNIX_EPOCH).ok()
}

/// Calls `Duration::as_millis`; nothing is stated of the count.
#[verifier::external_body]
fn duration_millis(d: &core::time::Duration) -> (r: u128) {
    d.as_millis()
}

/// Milliseconds since the Unix epoch by the system clock; `None` where the
/// clock is before the epoch or too far after it for an `i64`.
pub fn now_millis() -> (r: Option<i64>)
    ensures
        r matches Some(ms) ==> ms >= 0,
{
    let now = system_now();
    match since_unix_epoch(&now) {
        None => None,
        Some(d) => {
            let ms: u128 = duration_millis(&d);
            if ms <= 9_223_372_036_854_775_807u128 {
                Some(ms as i64)
            } else {
                None
            }
        },
    }
}

/// Calls `chrono::TimeZone::timestamp_millis_opt` on `chrono::Local` for the
/// moment `ms` milliseconds after the Unix epoch and keeps its `single()`
/// result, then reads its year, month, day, hour, minute and second
/// (`Datelike` / `Timelike`). `None` where chrono gives no single local
/// time. The fields are in the ranges chrono documents for them, and a
/// moment from the epoch on falls in a year from 1969 on, a local offset
/// being under a day; which local time it is depends on the time zone.
/// chrono takes the offset from the system's time-zone data and stops only
/// where that data is malformed (no offset, or one of a day or more); no
/// value of `ms` is refused.
#[verifier::external_body]
fn local_fields_at(ms: i64) -> (r: Option<(i32, u32, u32, u32, u32, u32)>)
    ensures
        r matches Some(f) ==> {
            &&& 1 <= f.1 <= 12
            &&& 1 <= f.2 <= 31
            &&& f.3 <= 23
            &&& f.4 <= 59
            &&& f.5 <= 59
            &&& ms >= 0 ==> f.0 >= 1969
        },
{
    match chrono::TimeZone::timestamp_millis_opt(&chrono::Local, ms).single() {
        Some(t) => Some((
            chrono::Datelike::year(&t),
            chrono::Datelike::month(&t),
            chrono::Datelike::day(&t),
            chrono::Timelike::hour(&t),
            chrono::Timelike::minute(&t),
            chrono::Timelike::second(&t),
        )),
        None => None,
    }
}

/// The local date and time of now, as year, month, day, hour, minute and
/// second; `None` where the clock cannot be read or gives no single local
/// time.
pub fn local_now() -> (r: Option<(i32, u32, u32, u32, u32, u32)>)
    ensures
        r matches Some(f) ==> local_time_ok(f.0 as int, f.1 as int, f.2 as int, f.3 as int, f.4 as int, f.5 as int),
{
    match now_millis() {
        None => None,
        Some(ms) => local_fields_at(ms),
    }
}

/// A number below 100 as two digits.
pub open spec fn two_digits(v: int) -> Seq<char> {
    seq![digit_char((v / 10) as nat), digit_char((v % 10) as nat)]
}

/// A year of the common era as `%Y` writes it: four digits up to 9999,
/// then a `+` and all its digits.
pub open spec fn year_text(y: int) -> Seq<char> {
    if y <= 9999 {
        seq![
            digit_char((y / 1000) as nat),
            digit_char((y / 100 % 10) as nat),
            digit_char((y / 10 % 10) as nat),
            digit_char((y % 10) as nat),
        ]
    } else {
        seq!['+'] + decimal(y as nat)
    }
}

/// A moment written as `%Y%m%d_%H%M%S`.
pub open spec fn timestamp_text(y: int, mo: int, d: int, h: int, mi: int, s: int) -> Seq<char> {
    year_text(y) + two_digits(mo) + two_digits(d) + seq!['_'] + two_digits(h) + two_digits(mi) + two_digits(s)
}

/// Whether a character is an ASCII digit.
pub open spec fn is_digit(c: char) -> bool {
    '0' <= c && c <= '9'
}

/// Eight digits, `_`, six digits.
pub open spec fn stamp_shape(t: Seq<char>) -> bool {
    &&& t.len() == 15
    &&& t[8] == '_'
    &&& forall|i: int| 0 <= i < 15 && i != 8 ==> is_digit(#[trigger] t[i])
}

/// A backup timestamp of a year up to 9999 has the shape
/// `YYYYMMDD_HHMMSS`; a later one starts with `+`.
pub proof fn law_timestamp_shape(y: int, mo: int, d: int, h: int, mi: int, s: int)
    requires
        local_time_ok(y, mo, d, h, mi, s),
    ensures
        y <= 9999 ==> stamp_shape(timestamp_text(y, mo, d, h, mi, s)),
        y > 9999 ==> timestamp_text(y, mo, d, h, mi, s)[0] == '+',
{
    assert forall|n: nat| #[trigger] is_digit(digit_char(n)) by {}
    let t = timestamp_text(y, mo, d, h, mi, s);
    if y <= 9999 {
        assert(t.len() == 15);
        assert forall|i: int| 0 <= i < 15 && i != 8 implies is_digit(#[trigger] t[i]) by {
            assert(is_digit(digit_char((y / 1000) as nat)));
            assert(is_digit(digit_char((y / 100 % 10) as nat)));
            assert(is_digit(digit_char((y / 10 % 10) as nat)));
            assert(is_digit(digit_char((y % 10) as nat)));
            assert(is_digit(digit_char((mo / 10) as nat)));
            assert(is_digit(digit_char((mo % 10) as nat)));
            assert(is_digit(digit_char((d / 10) as nat)));
            assert(is_digit(digit_char((d % 10) as nat)));
            assert(is_digit(digit_char((h / 10) as nat)));
            assert(is_digit(digit_char((h % 10) as nat)));
            assert(is_digit(digit_char((mi / 10) as nat)));
            assert(is_digit(digit_char((mi % 10) as nat)));
            assert(is_digit(digit_char((s / 10) as nat)));
            assert(is_digit(digit_char((s % 10) as nat)));
        }
    }
}

fn push_two(r: &mut String, v: u32)
    requires
        v < 100,
    ensures
        final(r)@ == old(r)@ + two_digits(v as int),
{
    r.push(digit_exec((v / 10) as u64));
    r.push(digit_exec((v % 10) as u64));
}

/// A local moment written as `%Y%m%d_%H%M%S`.
fn render_timestamp(y: i32, mo: u32, d: u32, h: u32, mi: u32, s: u32) -> (r: String)
    requires
        local_time_ok(y as int, mo as int, d as int, h as int, mi as int, s as int),
    ensures
        r@ == timestamp_text(y as int, mo as int, d as int, h as int, mi as int, s as int),
{
    let mut r = String::new();
    if y <= 9999 {
        let yy = y as u64;
        r.push(digit_exec(yy / 1000));
        r.push(digit_exec(yy / 100 % 10));
        r.push(digit_exec(yy / 10 % 10));
        r.push(digit_exec(yy % 10));
    } else {
        r.push('+');
        r.append(u64_to_decimal(y as u64).as_str());
    }
    assert(r@ =~= year_text(y as int));
    push_two(&mut r, mo);
    push_two(&mut r, d);
    r.push('_');
    push_two(&mut r, h);
    push_two(&mut r, mi);
    push_two(&mut r, s);
    assert(r@ =~= timestamp_text(y as int, mo as int, d as int, h as int, mi as int, s as int));
    r
}

// ---------------------------------------------------------------------------
// Making and restoring backups
// ---------------------------------------------------------------------------

/// The side-car metadata path of a backup file.
pub fn meta_path(backup_path: &str) -> (r: String)
    ensures
        r@ == meta_path_spec(backup_path@),
{
    crate::paths::replace_extension(backup_path, "meta.json")
}

/// Checks that a backup file can be restored: its text must be a readable
/// config document.
pub fn validate_backup_file(text: &str) -> (r: Result<(), AppError>)
    ensures
        r is Ok <==> crate::json_util::beamng_document(text@) is Ok,
        r matches Err(e) ==> crate::json_util::beamng_document(text@) == Err::<crate::json::JsonModel, Seq<char>>(
            e.message@,
        ),
{
    crate::json_util::validate_beamng_json(text)
}

/// The message of a refusal for want of a readable clock.
pub open spec fn no_clock_message() -> Seq<char> {
    "Could not read the system clock"@
}

/// The message of a backup refused for want of a local time.
pub open spec fn no_local_time_message() -> Seq<char> {
    "Could not read the local time"@
}

/// Whether `p` plans backup number `existing_count + 1` of the config at
/// `config_path` under `backups_root`, at the time its `timestamp` gives:
/// in the vehicle's own directory, named after the key, the timestamp and
/// the version, with the timestamp of the shape `YYYYMMDD_HHMMSS` (or, past
/// the year 9999, starting with `+`).
pub open spec fn planned_backup(p: BackupPlan, config_path: Seq<char>, backups_root: Seq<char>, existing_count: usize) -> bool {
    &&& p.vehicle_key@ == match crate::paths::file_stem(config_path) {
        Some(s) => s,
        None => "unknown"@,
    }
    &&& p.dir@ == join(backups_root, sanitized(p.vehicle_key@))
    &&& p.version == (existing_count + 1) as u32
    &&& p.backup_path@ == join(p.dir@, backup_file_name_spec(p.vehicle_key@, p.timestamp@, p.version as nat))
    &&& stamp_shape(p.timestamp@) || p.timestamp@[0] == '+'
}

/// Where and how a new backup is written.
#[derive(Debug)]
pub struct BackupPlan {
    pub vehicle_key: String,
    pub dir: String,
    pub backup_path: String,
    pub timestamp: String,
    pub version: u32,
}

/// Makes and restores backups.
pub struct BackupManager;

impl BackupManager {
    /// `<backups>/<sanitized key>`.
    pub fn vehicle_backup_dir(backups_root: &str, vehicle_key: &str) -> (r: String)
        ensures
            r@ == join(backups_root@, sanitized(vehicle_key@)),
    {
        let safe = sanitize_key(vehicle_key);
        join_path(backups_root, safe.as_str())
    }

    /// Plans the next backup of the config at `config_path`, of which
    /// `existing_count` exist, at the local time `local` (year, month, day,
    /// hour, minute, second): named after the vehicle key, that time and the
    /// version `existing_count + 1`. Refused where there is no local time or
    /// it is not one.
    pub fn plan_backup_at(
        config_path: &str,
        backups_root: &str,
        existing_count: usize,
        local: Option<(i32, u32, u32, u32, u32, u32)>,
    ) -> (r: Result<BackupPlan, AppError>)
        requires
            existing_count < usize::MAX,
        ensures
            match local {
                Some(f) if local_time_ok(f.0 as int, f.1 as int, f.2 as int, f.3 as int, f.4 as int, f.5 as int) =>
                    r matches Ok(p) && planned_backup(p, config_path@, backups_root@, existing_count)
                    && p.timestamp@ == timestamp_text(f.0 as int, f.1 as int, f.2 as int, f.3 as int, f.4 as int, f.5 as int),
                _ => r matches Err(e) && e.message@ == no_local_time_message(),
            },
    {
        let (y, mo, d, h, mi, sec) = match local {
            Some(f) => f,
            None => return Err(AppError::msg("Could not read the local time".to_owned())),
        };
        if !(1969 <= y && 1 <= mo && mo <= 12 && 1 <= d && d <= 31 && h <= 23 && mi <= 59 && sec <= 59) {
            return Err(AppError::msg("Could not read the local time".to_owned()));
        }
        let vehicle_key = vehicle_key_from_path(config_path);
        let dir = Self::vehicle_backup_dir(backups_root, vehicle_key.as_str());
        let timestamp = render_timestamp(y, mo, d, h, mi, sec);
        proof {
            law_timestamp_shape(y as int, mo as int, d as int, h as int, mi as int, sec as int);
        }
        let version = (existing_count + 1) as u32;
        let name = backup_file_name(vehicle_key.as_str(), timestamp.as_str(), version);
        let backup_path = join_path(dir.as_str(), name.as_str());
        Ok(BackupPlan { vehicle_key, dir, backup_path, timestamp, version })
    }

    /// Plans the next backup of the config at `config_path`, of which
    /// `existing_count` exist, at the present local time (see
    /// [`BackupManager::plan_backup_at`]); refused where the clock gives no
    /// local time.
    pub fn create_backup(config_path: &str, backups_root: &str, existing_count: usize) -> (r: Result<
        BackupPlan,
        AppError,
    >)
        requires
            existing_count < usize::MAX,
        ensures
            r matches Ok(p) ==> planned_backup(p, config_path@, backups_root@, existing_count) && exists|
                y: int,
                mo: int,
                d: int,
                h: int,
                mi: int,
                s: int,
            | local_time_ok(y, mo, d, h, mi, s) && p.timestamp@ == timestamp_text(y, mo, d, h, mi, s),
            r matches Err(e) ==> e.message@ == no_local_time_message(),
    {
        let local = local_now();
        let r = Self::plan_backup_at(config_path, backups_root, existing_count, local);
        proof {
            if let Some(f) = local {
                if r is Ok {
                    assert(local_time_ok(f.0 as int, f.1 as int, f.2 as int, f.3 as int, f.4 as int, f.5 as int));
                }
            }
        }
        r
    }

    /// The reason of the backup due before a config's first edit: one when
    /// its vehicle has no backup yet.
    pub fn ensure_initial_backup(index: &BackupIndex, config_path: &str) -> (r: Option<String>)
        ensures
            ({
                let key = match crate::paths::file_stem(config_path@) {
                    Some(s) => s,
                    None => "unknown"@,
                };
                if index.backups(key).len() == 0 {
                    r matches Some(reason) && reason@ == "initial auto-backup before first edit"@
                } else {
                    r is None
                }
            }),
    {
        let key = vehicle_key_from_path(config_path);
        if index.needs_initial_backup(key.as_str()) {
            Some("initial auto-backup before first edit".to_owned())
        } else {
            None
        }
    }

    /// Checks restoring a backup: refused when its file is missing
    /// (`backup_exists`) or does not hold a readable config (`validation`);
    /// otherwise the copy to make, from the backup to its original path.
    pub fn restore_backup(meta: &BackupMetadata, backup_exists: bool, validation: Result<(), AppError>) -> (r:
        Result<(String, String), AppError>)
        ensures
            !backup_exists ==> (r matches Err(e) && e.message@ == "Backup file missing: "@ + meta.backup_path@),
            backup_exists && validation is Err ==> (r matches Err(e) && validation matches Err(v) && e.message@
                == v.message@),
            backup_exists && validation is Ok ==> (r matches Ok((from, to)) && from@ == meta.backup_path@ && to@
                == meta.original_path@),
    {
        if !backup_exists {
            return Err(missing_backup_message(meta.backup_path.as_str()));
        }
        match validation {
            Err(e) => Err(e),
            Ok(_) => Ok((meta.backup_path.clone(), meta.original_path.clone())),
        }
    }

    /// What "restore all" restores (see [`BackupIndex::restore_all_plan`]).
    pub fn restore_all(index: &BackupIndex) -> (r: Vec<(String, BackupMetadata)>)
        ensures
            plan_view(r@) == earliest_per_vehicle(index.entries()),
            forall|a: int, b: int| 0 <= a < b < r@.len() ==> seq_lt(#[trigger] r@[a].0@, #[trigger] r@[b].0@),
    {
        index.restore_all_plan()
    }

    /// The metadata of a backup just written, created now (see
    /// [`BackupMetadata::for_new_backup`]); refused where the clock is before
    /// the Unix epoch or cannot be read as milliseconds.
    pub fn build_metadata(
        backup_path: &str,
        original_path: &str,
        vehicle_key: &str,
        vehicle_name: &str,
        reason: &str,
        version: u32,
        content: &[u8],
    ) -> (r: Result<BackupMetadata, AppError>)
        ensures
            r matches Ok(m) ==> m@ == (BackupInfo {
                vehicle_key: vehicle_key@,
                vehicle_name: vehicle_name@,
                original_path: original_path@,
                backup_path: backup_path@,
                created_at_ms: m.created_at_ms,
                file_size: content@.len() as u64,
                checksum: hex_lower(sha256_of(content@)),
                reason: reason@,
                version,
            }) && m.created_at_ms >= 0,
            r matches Err(e) ==> e.message@ == no_clock_message(),
    {
        match now_millis() {
            Some(ms) => Ok(
                BackupMetadata::for_new_backup(
                    backup_path,
                    original_path,
                    vehicle_key,
                    vehicle_name,
                    reason,
                    version,
                    content,
                    ms,
                ),
            ),
            None => Err(AppError::msg("Could not read the system clock".to_owned())),
        }
    }

    /// The metadata of a backup file found without its side-car (see
    /// [`BackupMetadata::imported`]), dated by its modification time when
    /// known, else now; refused only where that time is unknown and the
    /// clock cannot be read.
    pub fn metadata_from_file(backup_path: &str, vehicle_key: &str, content: &[u8], modified_ms: Option<i64>) -> (r:
        Result<BackupMetadata, AppError>)
        ensures
            r matches Ok(m) ==> m@ == (BackupInfo {
                vehicle_key: vehicle_key@,
                vehicle_name: vehicle_key@,
                original_path: Seq::empty(),
                backup_path: backup_path@,
                created_at_ms: m.created_at_ms,
                file_size: content@.len() as u64,
                checksum: hex_lower(sha256_of(content@)),
                reason: "imported"@,
                version: 0,
            }),
            modified_ms matches Some(t) ==> (r matches Ok(m) && m.created_at_ms == t),
            modified_ms is None ==> (r matches Ok(m) ==> m.created_at_ms >= 0),
            r matches Err(e) ==> modified_ms is None && e.message@ == no_clock_message(),
    {
        let at = match modified_ms {
            Some(t) => t,
            None => match now_millis() {
                Some(ms) => ms,
                None => return Err(AppError::msg("Could not read the system clock".to_owned())),
            },
        };
        Ok(BackupMetadata::imported(backup_path, vehicle_key, content, at))
    }
}

impl BackupIndex {
    /// Records the backups found for a vehicle, in creation order.
    pub fn load_vehicle(&mut self, vehicle_key: String, backups: Vec<BackupMetadata>)
        ensures
            final(self).backups(vehicle_key@) == sort_by_time(infos(backups@)),
            forall|k: Seq<char>| k != vehicle_key@ ==> #[trigger] final(self).backups(k) == old(self).backups(k),
    {
        let sorted = sort_backups(backups);
        self.set_vehicle(vehicle_key, sorted);
    }
}

} // verus!
