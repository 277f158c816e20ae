//! One migration unit: an ordinal, a diagnostic label, and a deferred
//! content source. Also the file-name convention that assigns ordinals:
//! the maximal leading run of decimal digits of a `.sql` file's name is
//! its ordinal, and the whole name is its label.

use vstd::prelude::*;
use crate::text;
use crate::update::error::Error;
use crate::update::io::{BytesIntoRead, FileIntoRead};

verus! {

/// The mathematical content of a unit: its ordinal and its label. The
/// content source is deliberately not part of the view.
pub ghost struct VersionView {
    pub ordinal: int,
    pub label: Seq<char>,
}

/// One schema change: ordinal, label, and a deferred content source.
/// Built once at discovery and never mutated.
#[derive(Debug)]
pub struct Version<R> {
    version: usize,
    descr: String,
    reader: R,
}

impl<R> View for Version<R> {
    type V = VersionView;

    closed spec fn view(&self) -> VersionView {
        VersionView { ordinal: self.version as int, label: self.descr@ }
    }
}

impl<R: Clone> Clone for Version<R> {
    fn clone(&self) -> (r: Self)
        ensures
            r@ == self@,
    {
        Version { version: self.version, descr: self.descr.clone(), reader: self.reader.clone() }
    }
}

impl<R> Version<R> {
    /// The content source, for the caller that resolves it.
    pub closed spec fn spec_reader(&self) -> &R {
        &self.reader
    }

    /// The unit's ordinal.
    pub fn version(&self) -> (r: usize)
        ensures
            r as int == self@.ordinal,
    {
        self.version
    }

    /// The unit's diagnostic label.
    pub fn description(&self) -> (r: String)
        ensures
            r@ == self@.label,
    {
        self.descr.clone()
    }

    /// A borrow of the unit's content source.
    pub fn reader(&self) -> (r: &R)
        ensures
            r == self.spec_reader(),
    {
        &self.reader
    }
}

impl Version<BytesIntoRead> {
    /// An in-memory unit over a fixed buffer; its label is the buffer's
    /// length followed by `B`.
    pub fn new_with_bytes(version: usize, data: Vec<u8>) -> (r: Result<
        Version<BytesIntoRead>,
        Error,
    >)
        ensures
            r matches Ok(v) && v@.ordinal == version as int && v@.label == text::dec_digits(
                data@.len() as nat,
            ) + "B"@ && v.spec_reader()@ == data@,
    {
        let mut descr = text::usize_string(data.len());
        descr.append("B");
        Ok(Version { version, descr, reader: BytesIntoRead::new(data) })
    }
}

/// The suffix of `p` after its last `/`; the whole of `p` when it holds
/// no `/`; empty when `p` ends with `/` or is empty.
pub open spec fn file_name_of(p: Seq<char>) -> Seq<char>
    decreases p.len(),
{
    if p.len() == 0 {
        Seq::empty()
    } else if p[p.len() - 1] == '/' {
        Seq::empty()
    } else {
        file_name_of(p.drop_last()) + seq![p[p.len() - 1]]
    }
}

proof fn lemma_file_name_at(p: Seq<char>, k: int)
    requires
        0 <= k <= p.len(),
        forall|i: int| k <= i < p.len() ==> p[i] != '/',
        k > 0 ==> p[k - 1] == '/',
    ensures
        file_name_of(p) == p.subrange(k, p.len() as int),
    decreases p.len(),
{
    if k == p.len() {
        if p.len() == 0 {
            assert(p.subrange(0, 0) =~= Seq::<char>::empty());
        } else {
            assert(p[p.len() - 1] == '/');
            assert(p.subrange(k, p.len() as int) =~= Seq::<char>::empty());
        }
    } else {
        assert(p[p.len() - 1] != '/');
        lemma_file_name_at(p.drop_last(), k);
        assert(p.drop_last().subrange(k, p.drop_last().len() as int) =~= p.subrange(
            k,
            p.len() - 1,
        ));
        assert(p.subrange(k, p.len() - 1) + seq![p[p.len() - 1]] =~= p.subrange(
            k,
            p.len() as int,
        ));
    }
}

impl Version<FileIntoRead> {
    /// A file-backed unit: the label is the path's file name, the content
    /// source records the path. Fails when the path has no file name.
    pub fn new_with_path(version: usize, path: &str) -> (r: Result<Version<FileIntoRead>, Error>)
        ensures
            file_name_of(path@).len() == 0 ==> (r matches Err(e) && e matches Error::VersionError(
                m,
            ) && m@ == "No file name"@),
            file_name_of(path@).len() > 0 ==> (r matches Ok(v) && v@.ordinal == version as int
                && v@.label == file_name_of(path@) && v.spec_reader()@ == path@),
    {
        let cs = text::chars_of(path);
        let n = cs.len();
        let mut k: usize = 0;
        let mut i: usize = 0;
        while i < n
            invariant
                n == path@.len(),
                cs@ == path@,
                i <= n,
                k <= i,
                forall|j: int| k <= j < i ==> path@[j] != '/',
                k > 0 ==> path@[k - 1] == '/',
            decreases n - i,
        {
            if cs[i] == '/' {
                k = i + 1;
            }
            i += 1;
        }
        proof {
            lemma_file_name_at(path@, k as int);
        }
        if k == n {
            return Err(Error::VersionError(String::from_str("No file name")));
        }
        let name = path.substring_char(k, n);
        proof {
            assert(name@ == file_name_of(path@));
        }
        Ok(Version {
            version,
            descr: String::from_str(name),
            reader: FileIntoRead::new(path),
        })
    }
}

/// A decimal digit.
pub open spec fn is_digit(c: char) -> bool {
    c == '0' || c == '1' || c == '2' || c == '3' || c == '4' || c == '5' || c == '6' || c == '7'
        || c == '8' || c == '9'
}

/// The value of a decimal digit (10 for anything else).
pub open spec fn digit_val(c: char) -> int {
    if c == '0' { 0 }
    else if c == '1' { 1 }
    else if c == '2' { 2 }
    else if c == '3' { 3 }
    else if c == '4' { 4 }
    else if c == '5' { 5 }
    else if c == '6' { 6 }
    else if c == '7' { 7 }
    else if c == '8' { 8 }
    else if c == '9' { 9 }
    else { 10 }
}

/// The maximal leading run of decimal digits of `s`.
pub open spec fn leading_digits(s: Seq<char>) -> Seq<char>
    decreases s.len(),
{
    if s.len() > 0 && is_digit(s[0]) {
        seq![s[0]] + leading_digits(s.drop_first())
    } else {
        Seq::empty()
    }
}

/// The number a run of decimal digits denotes, most significant first.
pub open spec fn digits_val(ds: Seq<char>) -> nat
    decreases ds.len(),
{
    if ds.len() == 0 {
        0
    } else {
        (digits_val(ds.drop_last()) * 10 + digit_val(ds.last())) as nat
    }
}

/// The index of the last `.` of `s`, or -1 when it has none.
pub open spec fn last_dot(s: Seq<char>) -> int
    decreases s.len(),
{
    if s.len() == 0 {
        -1
    } else if s[s.len() - 1] == '.' {
        s.len() - 1
    } else {
        last_dot(s.drop_last())
    }
}

/// Whether the name carries the `sql` extension: a last dot that is not
/// the first character, followed exactly by `sql`.
pub open spec fn has_sql_ext(s: Seq<char>) -> bool {
    last_dot(s) > 0 && s.subrange(last_dot(s) + 1, s.len() as int) == "sql"@
}

/// The diagnostic for a digit run that overflows an ordinal.
pub open spec fn parse_err_text(name: Seq<char>) -> Seq<char> {
    "Could not parse version from file name "@ + text::quoted(name)
}

proof fn lemma_last_dot_at(s: Seq<char>, d: int)
    requires
        0 <= d < s.len(),
        s[d] == '.',
        forall|i: int| d < i < s.len() ==> s[i] != '.',
    ensures
        last_dot(s) == d,
    decreases s.len(),
{
    if d == s.len() - 1 {
    } else {
        assert(s[s.len() - 1] != '.');
        lemma_last_dot_at(s.drop_last(), d);
    }
}

proof fn lemma_no_dot(s: Seq<char>)
    requires
        forall|i: int| 0 <= i < s.len() ==> s[i] != '.',
    ensures
        last_dot(s) == -1,
    decreases s.len(),
{
    if s.len() > 0 {
        lemma_no_dot(s.drop_last());
    }
}

proof fn lemma_leading_digits_at(s: Seq<char>, k: int)
    requires
        0 <= k <= s.len(),
        forall|j: int| 0 <= j < k ==> is_digit(s[j]),
        k < s.len() ==> !is_digit(s[k]),
    ensures
        leading_digits(s) == s.subrange(0, k),
    decreases k,
{
    if k == 0 {
        assert(s.subrange(0, 0) =~= Seq::<char>::empty());
    } else {
        assert(is_digit(s[0]));
        lemma_leading_digits_at(s.drop_first(), k - 1);
        assert(s.drop_first().subrange(0, k - 1) =~= s.subrange(1, k));
        assert(seq![s[0]] + s.subrange(1, k) =~= s.subrange(0, k));
    }
}

proof fn lemma_leading_digits_prefix(s: Seq<char>, k: int)
    requires
        0 <= k <= s.len(),
        forall|j: int| 0 <= j < k ==> is_digit(s[j]),
    ensures
        leading_digits(s).len() >= k,
        leading_digits(s).subrange(0, k) == s.subrange(0, k),
    decreases k,
{
    if k == 0 {
        assert(leading_digits(s).subrange(0, 0) =~= s.subrange(0, 0));
    } else {
        assert(is_digit(s[0]));
        lemma_leading_digits_prefix(s.drop_first(), k - 1);
        assert(leading_digits(s) == seq![s[0]] + leading_digits(s.drop_first()));
        assert(leading_digits(s).subrange(0, k) =~= seq![s[0]] + leading_digits(
            s.drop_first(),
        ).subrange(0, k - 1));
        assert(s.drop_first().subrange(0, k - 1) =~= s.subrange(1, k));
        assert(seq![s[0]] + s.subrange(1, k) =~= s.subrange(0, k));
    }
}

proof fn lemma_digits_val_prefix(ds: Seq<char>, k: int)
    requires
        0 <= k <= ds.len(),
    ensures
        digits_val(ds) >= digits_val(ds.subrange(0, k)),
    decreases ds.len() - k,
{
    if k == ds.len() {
        assert(ds.subrange(0, k) =~= ds);
    } else {
        lemma_digits_val_prefix(ds, k + 1);
        let p = ds.subrange(0, k + 1);
        assert(p.drop_last() =~= ds.subrange(0, k));
        assert(digits_val(p) == digits_val(ds.subrange(0, k)) * 10 + digit_val(p.last()));
        assert(digits_val(ds.subrange(0, k)) * 10 >= digits_val(ds.subrange(0, k)));
    }
}

fn exec_is_digit(c: char) -> (b: bool)
    ensures
        b == is_digit(c),
{
    c == '0' || c == '1' || c == '2' || c == '3' || c == '4' || c == '5' || c == '6' || c == '7'
        || c == '8' || c == '9'
}

fn exec_digit_val(c: char) -> (d: usize)
    requires
        is_digit(c),
    ensures
        d as int == digit_val(c),
{
    if c == '0' { 0 }
    else if c == '1' { 1 }
    else if c == '2' { 2 }
    else if c == '3' { 3 }
    else if c == '4' { 4 }
    else if c == '5' { 5 }
    else if c == '6' { 6 }
    else if c == '7' { 7 }
    else if c == '8' { 8 }
    else { 9 }
}

/// Reads the ordinal a file name carries under the directory convention:
/// `Ok(Some(v))` for a `.sql` file whose name starts with digits denoting
/// `v`; `Ok(None)` for any other name, silently skipped; an error when
/// the digit run does not fit an ordinal.
pub fn parse_name(name: &str) -> (r: Result<Option<usize>, Error>)
    ensures
        !has_sql_ext(name@) ==> (r matches Ok(o) && o is None),
        has_sql_ext(name@) && leading_digits(name@).len() == 0 ==> (r matches Ok(o) && o is None),
        has_sql_ext(name@) && leading_digits(name@).len() > 0 && digits_val(leading_digits(name@))
            <= usize::MAX ==> (r matches Ok(o) && o matches Some(v) && v as nat == digits_val(
            leading_digits(name@),
        )),
        has_sql_ext(name@) && leading_digits(name@).len() > 0 && digits_val(leading_digits(name@))
            > usize::MAX ==> (r matches Err(e) && e matches Error::ParseError(m) && m@
            == parse_err_text(name@)),
{
    let cs = text::chars_of(name);
    let n = cs.len();

    // Locate the last dot, if any.
    let mut has_dot = false;
    let mut d: usize = 0;
    let mut i: usize = 0;
    while i < n
        invariant
            n == name@.len(),
            cs@ == name@,
            i <= n,
            has_dot ==> d < i && name@[d as int] == '.' && forall|j: int|
                d < j < i ==> name@[j] != '.',
            !has_dot ==> forall|j: int| 0 <= j < i ==> name@[j] != '.',
        decreases n - i,
    {
        if cs[i] == '.' {
            d = i;
            has_dot = true;
        }
        i += 1;
    }
    proof {
        if has_dot {
            lemma_last_dot_at(name@, d as int);
        } else {
            lemma_no_dot(name@);
        }
    }

    // Keep only regular `.sql` names.
    let sql = has_dot && d > 0 && n - d == 4 && {
        let a = cs[d + 1] == 's' && cs[d + 2] == 'q' && cs[d + 3] == 'l';
        a
    };
    proof {
        reveal_strlit("sql");
        assert("sql"@.len() == 3);
        if has_dot && d > 0 {
            let tail = name@.subrange(d + 1, n as int);
            if n - d == 4 {
                assert(tail =~= seq![name@[d + 1], name@[d + 2], name@[d + 3]]);
                assert(("sql"@)[0] == 's' && ("sql"@)[1] == 'q' && ("sql"@)[2] == 'l');
                if name@[d + 1] == 's' && name@[d + 2] == 'q' && name@[d + 3] == 'l' {
                    assert(tail =~= "sql"@);
                } else {
                    assert(tail != "sql"@);
                }
            } else {
                assert(tail.len() != 3);
                assert(tail != "sql"@);
            }
        }
        assert(sql == has_sql_ext(name@));
    }
    if !sql {
        return Ok(None);
    }

    // The maximal leading digit run, folded into an ordinal as we go.
    let mut val: usize = 0;
    let mut e: usize = 0;
    while e < n && exec_is_digit(cs[e])
        invariant
            n == name@.len(),
            cs@ == name@,
            has_sql_ext(name@),
            e <= n,
            forall|j: int| 0 <= j < e ==> is_digit(name@[j]),
            val as nat == digits_val(name@.subrange(0, e as int)),
        decreases n - e,
    {
        let dv = exec_digit_val(cs[e]);
        if val > (usize::MAX - dv) / 10 {
            proof {
                let p = name@.subrange(0, e + 1);
                assert(p.drop_last() =~= name@.subrange(0, e as int));
                assert(digits_val(p) == (val as nat) * 10 + digit_val(name@[e as int]));
                assert(digits_val(p) > usize::MAX);
                lemma_leading_digits_prefix(name@, e + 1);
                let ld = leading_digits(name@);
                lemma_digits_val_prefix(ld, e + 1);
                assert(ld.subrange(0, e + 1) == p);
                assert(digits_val(ld) > usize::MAX);
                assert(ld.len() > 0);
            }
            let mut msg = String::from_str("Could not parse version from file name ");
            let q = text::quote_str(name);
            msg.append(q.as_str());
            proof {
                assert(msg@ =~= parse_err_text(name@));
            }
            return Err(Error::ParseError(msg));
        }
        proof {
            let p = name@.subrange(0, e + 1);
            assert(p.drop_last() =~= name@.subrange(0, e as int));
            assert(digits_val(p) == (val as nat) * 10 + digit_val(name@[e as int]));
        }
        val = val * 10 + dv;
        e += 1;
    }
    proof {
        lemma_leading_digits_at(name@, e as int);
    }
    if e == 0 {
        return Ok(None);
    }
    Ok(Some(val))
}

} // verus!
