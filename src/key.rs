use vstd::prelude::*;

use crate::error::{S3DecodeError, S3Error};

verus! {

/// A point in time, as milliseconds since the Unix epoch (UTC).
pub type Timestamp = i64;

/// A character that may appear in a key's prefix.
pub open spec fn is_prefix_char(c: char) -> bool {
    ('a' <= c && c <= 'z') || ('0' <= c && c <= '9') || c == '_'
}

pub open spec fn is_digit(c: char) -> bool {
    '0' <= c && c <= '9'
}

/// One or more lowercase letters, digits or underscores.
pub open spec fn is_valid_prefix(p: Seq<char>) -> bool {
    p.len() > 0 && forall|i: int| 0 <= i < p.len() ==> #[trigger] is_prefix_char(p[i])
}

/// One or more decimal digits.
pub open spec fn is_digit_run(d: Seq<char>) -> bool {
    d.len() > 0 && forall|i: int| 0 <= i < d.len() ==> #[trigger] is_digit(d[i])
}

pub open spec fn digit_value(c: char) -> int {
    c as int - '0' as int
}

/// The number that a run of decimal digits denotes.
pub open spec fn digits_value(d: Seq<char>) -> int
    decreases d.len(),
{
    if d.len() == 0 {
        0
    } else {
        digits_value(d.drop_last()) * 10 + digit_value(d.last())
    }
}

pub open spec fn gz_suffix() -> Seq<char> {
    seq!['.', 'g', 'z']
}

/// The key `<prefix>.<digits>`, followed by `.gz` when `gz` holds.
pub open spec fn key_text(p: Seq<char>, d: Seq<char>, gz: bool) -> Seq<char> {
    if gz {
        p + seq!['.'] + d + gz_suffix()
    } else {
        p + seq!['.'] + d
    }
}

/// `k` is a well-formed key whose prefix is `p` and whose digit run is `d`.
pub open spec fn is_key_of(k: Seq<char>, p: Seq<char>, d: Seq<char>) -> bool {
    &&& is_valid_prefix(p)
    &&& is_digit_run(d)
    &&& (k == key_text(p, d, false) || k == key_text(p, d, true))
}

/// `k` has the shape `<prefix>.<digits>[.gz]`.
pub open spec fn is_well_formed_key(k: Seq<char>) -> bool {
    exists|p: Seq<char>, d: Seq<char>| is_key_of(k, p, d)
}

/// The decimal digits of a natural number, without leading zeros.
pub open spec fn decimal_digits(n: nat) -> Seq<char>
    decreases n,
{
    if n < 10 {
        seq![digit_char(n)]
    } else {
        decimal_digits(n / 10).push(digit_char(n % 10))
    }
}

pub open spec fn digit_char(n: nat) -> char {
    if n == 0 {
        '0'
    } else if n == 1 {
        '1'
    } else if n == 2 {
        '2'
    } else if n == 3 {
        '3'
    } else if n == 4 {
        '4'
    } else if n == 5 {
        '5'
    } else if n == 6 {
        '6'
    } else if n == 7 {
        '7'
    } else if n == 8 {
        '8'
    } else {
        '9'
    }
}

/// The decimal text of a signed number: a minus sign for negative values.
pub open spec fn decimal_text(t: int) -> Seq<char> {
    if t < 0 {
        seq!['-'] + decimal_digits((-t) as nat)
    } else {
        decimal_digits(t as nat)
    }
}

/// The key that names the file of `prefix` at `t`: `<prefix>.<t>.gz`.
pub open spec fn synthesized_key(prefix: Seq<char>, t: int) -> Seq<char> {
    prefix + seq!['.'] + decimal_text(t) + gz_suffix()
}

/// A file in the object store: its full key, and the prefix and timestamp
/// that the key carries.
#[derive(Debug, Clone, PartialEq, Eq)]
pub struct FileInfo {
    pub key: String,
    pub prefix: String,
    pub timestamp: Timestamp,
}

/// The prefix and timestamp of a file descriptor agree with its key.
pub open spec fn describes_key(f: FileInfo) -> bool {
    exists|d: Seq<char>|
        #[trigger] is_key_of(f.key@, f.prefix@, d) && digits_value(d) == f.timestamp as int
}

/// `k` is well formed and its timestamp fits a signed 64-bit count.
pub open spec fn key_parses(k: Seq<char>) -> bool {
    exists|p: Seq<char>, d: Seq<char>| #[trigger] is_key_of(k, p, d) && digits_value(d) <= i64::MAX
}

/// `e` is the error that parsing the malformed key `k` reports.
pub open spec fn is_parse_error(k: Seq<char>, e: S3Error) -> bool {
    match e {
        S3Error::Decode(S3DecodeError::FileInfo(m)) => m@ == k && !is_well_formed_key(k),
        S3Error::Decode(S3DecodeError::Timestamp(m)) => m@ == k && exists|
            p: Seq<char>,
            d: Seq<char>,
        | #[trigger] is_key_of(k, p, d) && digits_value(d) > i64::MAX,
        _ => false,
    }
}

/// A key parses exactly when parsing it reports no error.
pub proof fn lemma_parse_error_iff(k: Seq<char>, e: S3Error)
    requires
        is_parse_error(k, e),
    ensures
        !key_parses(k),
{
    if key_parses(k) {
        let (p, d) = choose|p: Seq<char>, d: Seq<char>|
            #[trigger] is_key_of(k, p, d) && digits_value(d) <= i64::MAX;
        if let S3Error::Decode(S3DecodeError::Timestamp(_)) = e {
            let (pb, db) = choose|pb: Seq<char>, db: Seq<char>|
                #[trigger] is_key_of(k, pb, db) && digits_value(db) > i64::MAX;
            lemma_key_parts_unique(k, p, d, pb, db);
        }
    }
}

pub proof fn lemma_digits_value_nonneg(d: Seq<char>)
    requires
        forall|i: int| 0 <= i < d.len() ==> #[trigger] is_digit(d[i]),
    ensures
        digits_value(d) >= 0,
    decreases d.len(),
{
    if d.len() > 0 {
        assert(is_digit(d[d.len() - 1]));
        assert forall|i: int| 0 <= i < d.drop_last().len() implies #[trigger] is_digit(
            d.drop_last()[i],
        ) by {
            assert(is_digit(d[i]));
        }
        lemma_digits_value_nonneg(d.drop_last());
    }
}

/// Where the parts of a well-formed key stand in it.
proof fn lemma_key_shape(k: Seq<char>, p: Seq<char>, d: Seq<char>)
    requires
        is_key_of(k, p, d),
    ensures
        forall|x: int| 0 <= x < p.len() ==> k[x] == p[x],
        k[p.len() as int] == '.',
        forall|y: int| 0 <= y < d.len() ==> k[p.len() + 1int + y] == d[y],
        k.len() == p.len() + 1 + d.len() || (k.len() == p.len() + 1 + d.len() + 3 && k.subrange(
            p.len() + 1int + d.len(),
            k.len() as int,
        ) == gz_suffix()),
{
    if k == key_text(p, d, true) {
        assert(k.subrange(p.len() + 1int + d.len(), k.len() as int) =~= gz_suffix());
    }
}

/// A well-formed key determines its prefix and digit run.
pub proof fn lemma_key_parts_unique(k: Seq<char>, pa: Seq<char>, da: Seq<char>, pb: Seq<char>, db: Seq<char>)
    requires
        is_key_of(k, pa, da),
        is_key_of(k, pb, db),
    ensures
        pa == pb,
        da == db,
{
    lemma_key_shape(k, pa, da);
    lemma_key_shape(k, pb, db);
    if pa.len() < pb.len() {
        assert(is_prefix_char(pb[pa.len() as int]));
    } else if pb.len() < pa.len() {
        assert(is_prefix_char(pa[pb.len() as int]));
    }
    assert(pa =~= pb);
    let s = pa.len() + 1int;
    if da.len() < db.len() {
        assert(is_digit(db[da.len() as int]));
        if k.len() == s + da.len() {
        } else {
            assert(k[s + da.len()] == gz_suffix()[0]);
        }
    } else if db.len() < da.len() {
        assert(is_digit(da[db.len() as int]));
        if k.len() == s + db.len() {
        } else {
            assert(k[s + db.len()] == gz_suffix()[0]);
        }
    }
    assert(da =~= db);
}

proof fn lemma_digit_char(n: nat)
    requires
        n < 10,
    ensures
        is_digit(digit_char(n)),
        digit_value(digit_char(n)) == n,
{
}

/// The decimal digits of `n` are a digit run that denotes `n`.
pub proof fn lemma_decimal_digits(n: nat)
    ensures
        is_digit_run(decimal_digits(n)),
        digits_value(decimal_digits(n)) == n,
    decreases n,
{
    lemma_digit_char(n % 10);
    if n < 10 {
        let d = decimal_digits(n);
        assert(d.drop_last() =~= Seq::<char>::empty());
        assert(n % 10 == n);
        assert(digits_value(Seq::<char>::empty()) == 0);
        assert(digits_value(d) == digits_value(d.drop_last()) * 10 + digit_value(d.last()));
    } else {
        lemma_decimal_digits(n / 10);
        let d = decimal_digits(n);
        let h = decimal_digits(n / 10);
        assert(d.drop_last() =~= h);
        assert(d.last() == digit_char(n % 10));
        assert((n / 10) * 10 + n % 10 == n) by (nonlinear_arith);
        assert(digits_value(d) == digits_value(h) * 10 + digit_value(d.last()));
        assert forall|i: int| 0 <= i < d.len() implies #[trigger] is_digit(d[i]) by {
            if i < h.len() {
                assert(is_digit(h[i]));
            }
        }
    }
}

/// Parsing inverts key synthesis: the key `<prefix>.<t>.gz` made from a valid
/// prefix and a non-negative millisecond count is well formed, parsing it
/// reports no error, and every descriptor that it describes has exactly that
/// prefix and that timestamp.
pub proof fn lemma_parse_inverts_synthesis(prefix: Seq<char>, t: int)
    requires
        is_valid_prefix(prefix),
        0 <= t <= i64::MAX,
    ensures
        is_well_formed_key(synthesized_key(prefix, t)),
        forall|p: Seq<char>, d: Seq<char>|
            #[trigger] is_key_of(synthesized_key(prefix, t), p, d) ==> p == prefix
                && digits_value(d) == t,
        forall|e: S3Error| !#[trigger] is_parse_error(synthesized_key(prefix, t), e),
        forall|f: FileInfo|
            f.key@ == synthesized_key(prefix, t) && #[trigger] describes_key(f) ==> f.prefix@
                == prefix && f.timestamp == t,
{
    let k = synthesized_key(prefix, t);
    let d = decimal_digits(t as nat);
    lemma_decimal_digits(t as nat);
    assert(k =~= key_text(prefix, d, true));
    assert(is_key_of(k, prefix, d));
    assert forall|p: Seq<char>, db: Seq<char>| #[trigger] is_key_of(k, p, db) implies p == prefix
        && digits_value(db) == t by {
        lemma_key_parts_unique(k, p, db, prefix, d);
    }
    assert forall|e: S3Error| !#[trigger] is_parse_error(k, e) by {
        if is_parse_error(k, e) {
            lemma_parse_error_iff(k, e);
            assert(is_key_of(k, prefix, d) && digits_value(d) <= i64::MAX);
        }
    }
    assert forall|f: FileInfo| f.key@ == k && #[trigger] describes_key(f) implies f.prefix@ == prefix
        && f.timestamp == t by {
        let db = choose|db: Seq<char>|
            #[trigger] is_key_of(f.key@, f.prefix@, db) && digits_value(db) == f.timestamp as int;
        lemma_key_parts_unique(k, f.prefix@, db, prefix, d);
    }
}

fn digit_str(n: u64) -> (r: &'static str)
    requires
        n < 10,
    ensures
        r@ == seq![digit_char(n as nat)],
{
    proof {
        reveal_strlit("0");
        reveal_strlit("1");
        reveal_strlit("2");
        reveal_strlit("3");
        reveal_strlit("4");
        reveal_strlit("5");
        reveal_strlit("6");
        reveal_strlit("7");
        reveal_strlit("8");
        reveal_strlit("9");
    }
    let r = if n == 0 {
        "0"
    } else if n == 1 {
        "1"
    } else if n == 2 {
        "2"
    } else if n == 3 {
        "3"
    } else if n == 4 {
        "4"
    } else if n == 5 {
        "5"
    } else if n == 6 {
        "6"
    } else if n == 7 {
        "7"
    } else if n == 8 {
        "8"
    } else {
        "9"
    };
    assert(r@ =~= seq![digit_char(n as nat)]);
    r
}

fn append_decimal(s: &mut String, n: u64)
    ensures
        final(s)@ == old(s)@ + decimal_digits(n as nat),
    decreases n,
{
    if n >= 10 {
        append_decimal(s, n / 10);
    }
    s.append(digit_str(n % 10));
    proof {
        if n >= 10 {
            assert(decimal_digits(n as nat) == decimal_digits((n / 10) as nat).push(
                digit_char((n % 10) as nat),
            ));
        }
    }
    assert(final(s)@ =~= old(s)@ + decimal_digits(n as nat));
}

fn is_prefix_char_exec(c: char) -> (r: bool)
    ensures
        r == is_prefix_char(c),
{
    ('a' <= c && c <= 'z') || ('0' <= c && c <= '9') || c == '_'
}

fn digit_of(c: char) -> (r: Option<i64>)
    ensures
        r is Some <==> is_digit(c),
        r is Some ==> r->0 == digit_value(c) && 0 <= r->0 <= 9,
{
    if '0' <= c && c <= '9' {
        Some((c as u32 - '0' as u32) as i64)
    } else {
        None
    }
}

impl FileInfo {
    /// Parses an object key of the shape `<prefix>.<digits>[.gz]`.
    ///
    /// The prefix is one or more lowercase letters, digits or underscores; the
    /// digit run is a millisecond count since the Unix epoch. A key of another
    /// shape is refused with `S3DecodeError::FileInfo`; a digit run beyond the
    /// signed 64-bit range with `S3DecodeError::Timestamp`.
    pub fn parse(s: &str) -> (r: Result<FileInfo, S3Error>)
        ensures
            match r {
                Ok(f) => f.key@ == s@ && describes_key(f),
                Err(e) => is_parse_error(s@, e),
            },
    {
        let k = Ghost(s@);
        let n = s.unicode_len();
        let mut i: usize = 0;
        while i < n && is_prefix_char_exec(s.get_char(i))
            invariant
                n == k@.len(),
                s@ == k@,
                i <= n,
                forall|x: int| 0 <= x < i ==> #[trigger] is_prefix_char(k@[x]),
            decreases n - i,
        {
            i = i + 1;
        }
        if i == 0 || i >= n || s.get_char(i) != '.' {
            proof {
                assert forall|p: Seq<char>, d: Seq<char>| !is_key_of(k@, p, d) by {
                    if is_key_of(k@, p, d) {
                        lemma_key_shape(k@, p, d);
                        if p.len() < i {
                            assert(is_prefix_char(k@[p.len() as int]));
                        } else if p.len() > i {
                            assert(is_prefix_char(p[i as int]));
                        }
                    }
                }
            }
            return Err(S3Error::Decode(S3DecodeError::FileInfo(s.to_owned())));
        }
        let mut j: usize = i + 1;
        let mut value: i64 = 0;
        let mut overflow = false;
        while j < n && digit_of(s.get_char(j)).is_some()
            invariant
                n == k@.len(),
                s@ == k@,
                i < j <= n,
                forall|y: int| i < y < j ==> #[trigger] is_digit(k@[y]),
                !overflow ==> value as int == digits_value(k@.subrange(i + 1, j as int)),
                overflow ==> digits_value(k@.subrange(i + 1, j as int)) > i64::MAX,
                value >= 0,
            decreases n - j,
        {
            let v = digit_of(s.get_char(j)).unwrap();
            let ghost old_run = k@.subrange(i + 1, j as int);
            let ghost run = k@.subrange(i + 1, j + 1);
            assert(run.drop_last() =~= old_run);
            proof {
                lemma_digits_value_nonneg(old_run);
            }
            if !overflow {
                if value > (i64::MAX - v) / 10 {
                    overflow = true;
                } else {
                    value = value * 10 + v;
                }
            }
            j = j + 1;
        }
        let ghost p = k@.subrange(0, i as int);
        let ghost d = k@.subrange(i + 1, j as int);
        let ok_tail = if j == n {
            true
        } else if n - j == 3 {
            s.get_char(j) == '.' && s.get_char(j + 1) == 'g' && s.get_char(j + 2) == 'z'
        } else {
            false
        };
        if j == i + 1 || !ok_tail {
            proof {
                assert forall|pb: Seq<char>, db: Seq<char>| !is_key_of(k@, pb, db) by {
                    if is_key_of(k@, pb, db) {
                        lemma_key_shape(k@, pb, db);
                        if pb.len() < i {
                            assert(is_prefix_char(k@[pb.len() as int]));
                        } else if pb.len() > i {
                            assert(is_prefix_char(pb[i as int]));
                        }
                        let sb = pb.len() + 1int;
                        if db.len() < j - sb {
                            assert(is_digit(k@[sb + db.len()]));
                            if k@.len() != sb + db.len() {
                                assert(k@[sb + db.len()] == gz_suffix()[0]);
                            }
                        } else if db.len() > j - sb {
                            assert(is_digit(db[j - sb]));
                        }
                        if k@.len() != sb + db.len() {
                            let t = k@.subrange(j as int, k@.len() as int);
                            assert(t[0] == k@[j as int] && t[1] == k@[j + 1] && t[2] == k@[j + 2]);
                        }
                    }
                }
            }
            return Err(S3Error::Decode(S3DecodeError::FileInfo(s.to_owned())));
        }
        proof {
            assert(is_valid_prefix(p));
            assert(is_digit_run(d));
            if j == n {
                assert(k@ =~= key_text(p, d, false));
            } else {
                assert(k@ =~= key_text(p, d, true));
            }
            assert(is_key_of(k@, p, d));
        }
        if overflow {
            return Err(S3Error::Decode(S3DecodeError::Timestamp(s.to_owned())));
        }
        let prefix = s.substring_char(0, i);
        let f = FileInfo { key: s.to_owned(), prefix: prefix.to_owned(), timestamp: value };
        assert(is_key_of(f.key@, f.prefix@, d) && digits_value(d) == f.timestamp as int);
        Ok(f)
    }

    /// A field-by-field copy.
    pub fn copy(&self) -> (r: FileInfo)
        ensures
            r == *self,
    {
        FileInfo { key: self.key.clone(), prefix: self.prefix.clone(), timestamp: self.timestamp }
    }

    /// The key `<prefix>.<t>.gz` that names the file of `prefix` at `t`, as a
    /// sentinel for a point in time; parsing it gives back `prefix` and `t`.
    pub fn start_after_key(prefix: &str, t: Timestamp) -> (r: String)
        ensures
            r@ == synthesized_key(prefix@, t as int),
    {
        proof {
            reveal_strlit(".");
            reveal_strlit("-");
            reveal_strlit(".gz");
        }
        let mut s = String::from_str(prefix);
        s.append(".");
        if t < 0 {
            s.append("-");
            let m = (0i128 - t as i128) as u64;
            append_decimal(&mut s, m);
        } else {
            append_decimal(&mut s, t as u64);
        }
        s.append(".gz");
        assert(s@ =~= synthesized_key(prefix@, t as int));
        s
    }
}

} // verus!
