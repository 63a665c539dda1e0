//! Text forms of hashes, identifiers and query values.
use vstd::prelude::*;
use vstd::string::{StringExecFns, StringSliceAdditionalSpecFns};
use crate::scan::ScanEvent;
use crate::text::{chars_of, push_char, push_chars, string_of, trim_bounds, trimmed};
use crate::update::UpdateProgress;

verus! {

/// Lower-case hexadecimal digit of `n`.
pub open spec fn hex_char(n: nat) -> char {
    if n < 10 {
        ('0' as nat + n) as char
    } else {
        ('a' as nat + n - 10) as char
    }
}

/// Upper-case hexadecimal digit of `n`.
pub open spec fn hex_char_upper(n: nat) -> char {
    if n < 10 {
        ('0' as nat + n) as char
    } else {
        ('A' as nat + n - 10) as char
    }
}

/// Two lower-case hex digits per byte.
pub open spec fn hex_of(b: Seq<u8>) -> Seq<char>
    decreases b.len(),
{
    if b.len() == 0 {
        Seq::empty()
    } else {
        hex_of(b.drop_last()) + seq![hex_char(b.last() as nat / 16), hex_char(b.last() as nat % 16)]
    }
}

proof fn lemma_hex_len(b: Seq<u8>)
    ensures
        hex_of(b).len() == 2 * b.len(),
    decreases b.len(),
{
    if b.len() > 0 {
        lemma_hex_len(b.drop_last());
    }
}

fn hex_digit(n: u8, upper: bool) -> (r: char)
    requires
        n < 16,
    ensures
        !upper ==> r == hex_char(n as nat),
        upper ==> r == hex_char_upper(n as nat),
{
    if n < 10 {
        (('0' as u8) + n) as char
    } else if upper {
        (('A' as u8) + n - 10) as char
    } else {
        (('a' as u8) + n - 10) as char
    }
}

/// Lower-case hexadecimal form of `bytes`.
pub fn bytes_to_hex(bytes: &[u8]) -> (r: String)
    ensures
        r@ == hex_of(bytes@),
        r@.len() == 2 * bytes@.len(),
{
    let mut s = String::new();
    let mut i: usize = 0;
    while i < bytes.len()
        invariant
            i <= bytes@.len(),
            s@ == hex_of(bytes@.subrange(0, i as int)),
        decreases bytes.len() - i,
    {
        let b = bytes[i];
        push_char(&mut s, hex_digit(b / 16, false));
        push_char(&mut s, hex_digit(b % 16, false));
        let ghost p = bytes@.subrange(0, i + 1);
        assert(p.drop_last() =~= bytes@.subrange(0, i as int));
        assert(s@ =~= hex_of(p));
        i = i + 1;
    }
    assert(bytes@.subrange(0, bytes@.len() as int) =~= bytes@);
    proof {
        lemma_hex_len(bytes@);
    }
    s
}

/// Hexadecimal form of a content hash.
pub fn format_hash(hash: &[u8]) -> (r: String)
    ensures
        r@ == hex_of(hash@),
{
    bytes_to_hex(hash)
}

/// First twelve hex digits of a hash, then "...".
pub fn short_hash(hash: &[u8]) -> (r: String)
    ensures
        r@ == hex_of(hash@).take(if hex_of(hash@).len() < 12 { hex_of(hash@).len() as int } else { 12 }) + "..."@,
{
    let text = chars_of(format_hash(hash).as_str());
    let n: usize = if text.len() < 12 { text.len() } else { 12 };
    let out = string_of(&text, 0, n);
    proof {
        reveal_strlit("...");
    }
    out.concat("...")
}

/// A peer id of at most sixteen characters, or its first twelve and "...".
pub fn short_peer_id(peer_id: &str) -> (r: String)
    ensures
        peer_id@.len() <= 16 ==> r@ == peer_id@,
        peer_id@.len() > 16 ==> r@ == peer_id@.take(12) + "..."@,
{
    let v = chars_of(peer_id);
    if v.len() <= 16 {
        return string_of(&v, 0, v.len());
    }
    string_of(&v, 0, 12).concat("...")
}

/// `text` with its middle elided when longer than `head + tail + 1`
/// characters: the first `head`, an ellipsis, the last `tail`.
pub open spec fn abbreviated(text: Seq<char>, head: nat, tail: nat) -> Seq<char> {
    if text.len() <= head + tail + 1 {
        text
    } else {
        text.take(head as int) + seq!['\u{2026}'] + text.subrange(text.len() - tail, text.len() as int)
    }
}

fn abbreviate(text: &str, head: usize, tail: usize) -> (r: String)
    requires
        head + tail + 1 <= usize::MAX,
    ensures
        r@ == abbreviated(text@, head as nat, tail as nat),
{
    let v = chars_of(text);
    if v.len() <= head + tail + 1 {
        return string_of(&v, 0, v.len());
    }
    let mut out = string_of(&v, 0, head);
    push_char(&mut out, '\u{2026}');
    push_chars(&mut out, &v, v.len() - tail, v.len());
    out
}

/// A peer id shortened to its first eight and last six characters.
pub fn abbreviate_peer_id(id: &str) -> (r: String)
    ensures
        r@ == abbreviated(id@, 8, 6),
{
    abbreviate(id, 8, 6)
}

/// A hash shortened to its first and last eight hex digits.
pub fn abbreviate_hash(hash_hex: &str) -> (r: String)
    ensures
        r@ == abbreviated(hash_hex@, 8, 8),
{
    abbreviate(hash_hex, 8, 8)
}

/// Value of a hexadecimal digit (either case).
pub open spec fn hex_digit_value(c: char) -> Option<u8> {
    if '0' <= c && c <= '9' {
        Some((c as nat - '0' as nat) as u8)
    } else if 'a' <= c && c <= 'f' {
        Some((c as nat - 'a' as nat + 10) as u8)
    } else if 'A' <= c && c <= 'F' {
        Some((c as nat - 'A' as nat + 10) as u8)
    } else {
        None
    }
}

/// Value of the hexadecimal digit `byte` (either case).
pub fn hex_value(byte: u8) -> (r: Option<u8>)
    ensures
        r == hex_digit_value(byte as char),
{
    if 48u8 <= byte && byte <= 57u8 {
        Some(byte - 48u8)
    } else if 97u8 <= byte && byte <= 102u8 {
        Some(byte - 97u8 + 10)
    } else if 65u8 <= byte && byte <= 70u8 {
        Some(byte - 65u8 + 10)
    } else {
        None
    }
}

/// Bytes that a character takes in UTF-8.
pub open spec fn utf8_width(c: char) -> nat {
    if (c as u32) < 0x80 {
        1
    } else if (c as u32) < 0x800 {
        2
    } else if (c as u32) < 0x10000 {
        3
    } else {
        4
    }
}

/// Bytes that `s` takes in UTF-8.
pub open spec fn utf8_len(s: Seq<char>) -> nat
    decreases s.len(),
{
    if s.len() == 0 {
        0
    } else {
        utf8_len(s.drop_last()) + utf8_width(s.last())
    }
}

proof fn lemma_utf8_len_prefix(s: Seq<char>, k: int)
    requires
        0 <= k <= s.len(),
    ensures
        utf8_len(s.subrange(0, k)) <= utf8_len(s),
    decreases s.len() - k,
{
    if k < s.len() {
        lemma_utf8_len_prefix(s, k + 1);
        assert(s.subrange(0, k + 1).drop_last() =~= s.subrange(0, k));
    } else {
        assert(s.subrange(0, k) =~= s);
    }
}

proof fn lemma_utf8_len_at_least(s: Seq<char>)
    ensures
        utf8_len(s) >= s.len(),
    decreases s.len(),
{
    if s.len() > 0 {
        lemma_utf8_len_at_least(s.drop_last());
    }
}

/// A hash parameter without blanks and without a `0x` / `0X` prefix.
pub open spec fn hash_digits(value: Seq<char>) -> Seq<char> {
    let t = trimmed(value);
    if t.len() >= 2 && t[0] == '0' && (t[1] == 'x' || t[1] == 'X') {
        t.drop_first().drop_first()
    } else {
        t
    }
}

/// Byte `i` of the hash written as the hex digits `d`.
pub open spec fn hash_byte(d: Seq<char>, i: int) -> u8 {
    (hex_digit_value(d[2 * i])->Some_0 * 16 + hex_digit_value(d[2 * i + 1])->Some_0) as u8
}

pub const HASH_EMPTY: &'static str = "hash cannot be empty";

pub const HASH_LENGTH: &'static str = "hash must be 32 bytes";

pub const HASH_INVALID: &'static str = "invalid hash";

/// Reads a 32-byte hash written as 64 hex digits, optionally with a `0x`
/// prefix and surrounding blanks.
pub fn parse_hash_param(value: &str) -> (r: Result<[u8; 32], &'static str>)
    ensures
        hash_digits(value@).len() == 0 ==> r == Err::<[u8; 32], &'static str>(HASH_EMPTY),
        hash_digits(value@).len() > 0 && utf8_len(hash_digits(value@)) != 64 ==> r == Err::<
            [u8; 32],
            &'static str,
        >(HASH_LENGTH),
        hash_digits(value@).len() > 0 && utf8_len(hash_digits(value@)) == 64 ==> {
            let d = hash_digits(value@);
            if forall|i: int| 0 <= i < d.len() ==> hex_digit_value(#[trigger] d[i]) is Some {
                r is Ok && forall|i: int| 0 <= i < 32 ==> #[trigger] r->Ok_0@[i] == hash_byte(d, i)
            } else {
                r == Err::<[u8; 32], &'static str>(HASH_INVALID)
            }
        },
{
    let v = chars_of(value);
    let (a, b) = trim_bounds(&v);
    let start = if b - a >= 2 && v[a] == '0' && (v[a + 1] == 'x' || v[a + 1] == 'X') {
        a + 2
    } else {
        a
    };
    let ghost d = hash_digits(value@);
    assert(d =~= v@.subrange(start as int, b as int));
    if start == b {
        return Err(HASH_EMPTY);
    }
    let mut width: u64 = 0;
    let mut i: usize = start;
    while i < b && width <= 64
        invariant
            start <= i <= b <= v@.len(),
            d == v@.subrange(start as int, b as int),
            width == utf8_len(d.subrange(0, i - start)),
            width <= 68,
        decreases b - i,
    {
        let c = v[i];
        let w: u64 = if (c as u32) < 0x80 {
            1
        } else if (c as u32) < 0x800 {
            2
        } else if (c as u32) < 0x10000 {
            3
        } else {
            4
        };
        let ghost p = d.subrange(0, i - start + 1);
        assert(p.drop_last() =~= d.subrange(0, i - start));
        assert(p.last() == c);
        width = width + w;
        i = i + 1;
    }
    proof {
        lemma_utf8_len_prefix(d, i - start);
    }
    if width != 64 || i < b {
        assert(d.subrange(0, d.len() as int) =~= d);
        return Err(HASH_LENGTH);
    }
    assert(d.subrange(0, d.len() as int) =~= d);
    proof {
        lemma_utf8_len_at_least(d);
    }
    if b - start != 64 {
        proof {
            lemma_ascii_width(d);
        }
        return Err(HASH_INVALID);
    }
    let mut hash = [0u8; 32];
    let mut k: usize = 0;
    while k < 32
        invariant
            b - start == 64,
            d == hash_digits(value@),
            utf8_len(d) == 64,
            start <= b <= v@.len(),
            d == v@.subrange(start as int, b as int),
            k <= 32,
            forall|j: int| 0 <= j < 2 * k ==> hex_digit_value(#[trigger] d[j]) is Some,
            forall|j: int| 0 <= j < k ==> #[trigger] hash@[j] == hash_byte(d, j),
        decreases 32 - k,
    {
        let hc = v[start + 2 * k];
        let lc = v[start + 2 * k + 1];
        assert(hc == d[2 * k]);
        assert(lc == d[2 * k + 1]);
        let hi = match hex_char_value(hc) {
            Some(x) => x,
            None => {
                return Err(HASH_INVALID);
            },
        };
        let lo = match hex_char_value(lc) {
            Some(x) => x,
            None => {
                return Err(HASH_INVALID);
            },
        };
        hash[k] = hi * 16 + lo;
        k = k + 1;
    }
    Ok(hash)
}

/// Characters of width one are the ASCII ones; a string of 64 bytes with
/// another length holds a character outside ASCII, which is no hex digit.
proof fn lemma_ascii_width(d: Seq<char>)
    requires
        utf8_len(d) == 64,
        d.len() != 64,
    ensures
        !(forall|i: int| 0 <= i < d.len() ==> hex_digit_value(#[trigger] d[i]) is Some),
{
    if forall|i: int| 0 <= i < d.len() ==> hex_digit_value(#[trigger] d[i]) is Some {
        lemma_hex_width(d);
    }
}

proof fn lemma_hex_width(d: Seq<char>)
    requires
        forall|i: int| 0 <= i < d.len() ==> hex_digit_value(#[trigger] d[i]) is Some,
    ensures
        utf8_len(d) == d.len(),
    decreases d.len(),
{
    if d.len() > 0 {
        let r = d.drop_last();
        assert forall|i: int| 0 <= i < r.len() implies hex_digit_value(#[trigger] r[i]) is Some by {
            assert(r[i] == d[i]);
        }
        lemma_hex_width(r);
        assert(hex_digit_value(d[d.len() - 1]) is Some);
    }
}

/// Value of the hexadecimal digit `c` (either case).
fn hex_char_value(c: char) -> (r: Option<u8>)
    ensures
        r == hex_digit_value(c),
        r is Some ==> r->Some_0 < 16,
{
    if '0' <= c && c <= '9' {
        Some((c as u32 - '0' as u32) as u8)
    } else if 'a' <= c && c <= 'f' {
        Some((c as u32 - 'a' as u32 + 10) as u8)
    } else if 'A' <= c && c <= 'F' {
        Some((c as u32 - 'A' as u32 + 10) as u8)
    } else {
        None
    }
}

/// Bytes left as they are in a query value.
pub open spec fn is_unreserved(b: u8) -> bool {
    (48u8 <= b && b <= 57u8) || (97u8 <= b && b <= 122u8) || (65u8 <= b && b <= 90u8) || b == 45u8
        || b == 95u8 || b == 46u8 || b == 126u8
}

/// Percent-encoding of a byte string, with upper-case hex digits.
pub open spec fn percent_encoded(b: Seq<u8>) -> Seq<char>
    decreases b.len(),
{
    if b.len() == 0 {
        Seq::empty()
    } else {
        percent_encoded(b.drop_last()) + if is_unreserved(b.last()) {
            seq![b.last() as char]
        } else {
            seq!['%', hex_char_upper(b.last() as nat / 16), hex_char_upper(b.last() as nat % 16)]
        }
    }
}

/// Percent-encodes the UTF-8 bytes of `input` for a query string.
pub fn url_encode(input: &str) -> (r: String)
    ensures
        r@ == percent_encoded(input.spec_bytes()),
{
    let bytes = input.as_bytes();
    let mut out = String::new();
    let mut i: usize = 0;
    while i < bytes.len()
        invariant
            bytes@ == input.spec_bytes(),
            i <= bytes@.len(),
            out@ == percent_encoded(bytes@.subrange(0, i as int)),
        decreases bytes.len() - i,
    {
        let b = bytes[i];
        let unreserved = (48u8 <= b && b <= 57u8) || (97u8 <= b && b <= 122u8) || (65u8 <= b && b
            <= 90u8) || b == 45u8 || b == 95u8 || b == 46u8 || b == 126u8;
        if unreserved {
            push_char(&mut out, b as char);
        } else {
            push_char(&mut out, '%');
            push_char(&mut out, hex_digit(b / 16, true));
            push_char(&mut out, hex_digit(b % 16, true));
        }
        let ghost p = bytes@.subrange(0, i + 1);
        assert(p.drop_last() =~= bytes@.subrange(0, i as int));
        assert(out@ =~= percent_encoded(p));
        i = i + 1;
    }
    assert(bytes@.subrange(0, bytes@.len() as int) =~= bytes@);
    out
}

/// Decimal digits of `n`.
pub open spec fn decimal_of(n: nat) -> Seq<char>
    decreases n,
{
    if n < 10 {
        seq![('0' as nat + n) as char]
    } else {
        decimal_of(n / 10) + seq![('0' as nat + n % 10) as char]
    }
}

/// Appends the decimal digits of `n` to `out`.
pub fn push_decimal(out: &mut String, n: u64)
    ensures
        final(out)@ == old(out)@ + decimal_of(n as nat),
    decreases n,
{
    if n >= 10 {
        push_decimal(out, n / 10);
    }
    push_char(out, (('0' as u8) + (n % 10) as u8) as char);
}

/// Decimal form of `n`.
pub fn decimal(n: u64) -> (r: String)
    ensures
        r@ == decimal_of(n as nat),
{
    let mut s = String::new();
    push_decimal(&mut s, n);
    assert(s@ =~= decimal_of(n as nat));
    s
}

/// `n / 10` rounded half up.
pub open spec fn tenths_rounded(n: nat) -> nat {
    n / 10 + if n % 10 >= 5 { 1nat } else { 0nat }
}

/// Seconds with two decimals for a duration of `ms` milliseconds.
pub open spec fn seconds_of(ms: nat) -> Seq<char> {
    let cs = tenths_rounded(ms);
    decimal_of(cs / 100) + seq!['.', ('0' as nat + (cs % 100) / 10) as char, ('0' as nat + cs % 10) as char]
}

/// One line describing an update event.
pub open spec fn update_progress_text(p: UpdateProgress) -> Seq<char> {
    match p {
        UpdateProgress::FetchingRelease => "Fetching release metadata"@,
        UpdateProgress::Downloading { filename } => "Downloading "@ + filename@,
        UpdateProgress::Unpacking => "Unpacking update"@,
        UpdateProgress::Verifying => "Verifying package"@,
        UpdateProgress::Installing => "Installing update"@,
        UpdateProgress::Completed { version } => "Update completed: "@ + version@,
        UpdateProgress::Failed { error } => "Update failed: "@ + error@,
        UpdateProgress::AlreadyUpToDate { current_version } => "Already up to date ("@ + decimal_of(
            current_version as nat,
        ) + ")"@,
    }
}

pub fn format_update_progress(progress: &UpdateProgress) -> (r: String)
    ensures
        r@ == update_progress_text(*progress),
{
    match progress {
        UpdateProgress::FetchingRelease => String::from_str("Fetching release metadata"),
        UpdateProgress::Downloading { filename } => String::from_str("Downloading ").concat(filename.as_str()),
        UpdateProgress::Unpacking => String::from_str("Unpacking update"),
        UpdateProgress::Verifying => String::from_str("Verifying package"),
        UpdateProgress::Installing => String::from_str("Installing update"),
        UpdateProgress::Completed { version } => String::from_str("Update completed: ").concat(version.as_str()),
        UpdateProgress::Failed { error } => String::from_str("Update failed: ").concat(error.as_str()),
        UpdateProgress::AlreadyUpToDate { current_version } => {
            let mut s = String::from_str("Already up to date (");
            push_decimal(&mut s, *current_version as u64);
            s.concat(")")
        },
    }
}

/// One line describing a scan event.
pub open spec fn scan_event_text(e: ScanEvent) -> Seq<char> {
    match e {
        ScanEvent::Progress(p) => "Scanned "@ + decimal_of(p.processed_files as nat) + "/"@ + decimal_of(
            p.total_files as nat,
        ) + " files (inserted "@ + decimal_of(p.inserted_count as nat) + ", updated "@
            + decimal_of(p.updated_count as nat) + ", removed "@ + decimal_of(p.removed_count as nat)
            + ")"@,
        ScanEvent::Finished(Ok(s)) => "Scan finished: inserted "@ + decimal_of(s.inserted_count as nat)
            + ", updated "@ + decimal_of(s.updated_count as nat) + ", removed "@ + decimal_of(
            s.removed_count as nat,
        ) + " ("@ + seconds_of(s.duration_ms as nat) + "s)"@,
        ScanEvent::Finished(Err(e)) => "Scan failed: "@ + e@,
    }
}

fn push_str(out: &mut String, s: &str)
    ensures
        final(out)@ == old(out)@ + s@,
{
    out.append(s);
}

pub fn format_scan_event(event: &ScanEvent) -> (r: String)
    ensures
        r@ == scan_event_text(*event),
{
    let mut s = String::new();
    match event {
        ScanEvent::Progress(p) => {
            push_str(&mut s, "Scanned ");
            push_decimal(&mut s, p.processed_files);
            push_str(&mut s, "/");
            push_decimal(&mut s, p.total_files);
            push_str(&mut s, " files (inserted ");
            push_decimal(&mut s, p.inserted_count);
            push_str(&mut s, ", updated ");
            push_decimal(&mut s, p.updated_count);
            push_str(&mut s, ", removed ");
            push_decimal(&mut s, p.removed_count);
            push_str(&mut s, ")");
        },
        ScanEvent::Finished(Ok(st)) => {
            push_str(&mut s, "Scan finished: inserted ");
            push_decimal(&mut s, st.inserted_count);
            push_str(&mut s, ", updated ");
            push_decimal(&mut s, st.updated_count);
            push_str(&mut s, ", removed ");
            push_decimal(&mut s, st.removed_count);
            push_str(&mut s, " (");
            let ms = st.duration_ms;
            let cs = ms / 10 + if ms % 10 >= 5 { 1u64 } else { 0u64 };
            push_decimal(&mut s, cs / 100);
            push_char(&mut s, '.');
            push_char(&mut s, (('0' as u8) + ((cs % 100) / 10) as u8) as char);
            push_char(&mut s, (('0' as u8) + (cs % 10) as u8) as char);
            push_str(&mut s, "s)");
        },
        ScanEvent::Finished(Err(e)) => {
            push_str(&mut s, "Scan failed: ");
            push_str(&mut s, e.as_str());
        },
    }
    assert(s@ =~= scan_event_text(*event));
    s
}

} // verus!
