//! Access scopes: an operation list and a resource, written
//! `read,write:entry`. Parsing accepts surrounding whitespace and any
//! letter case for the keywords; an unknown keyword, or anything other
//! than exactly one `:`, is rejected with a diagnostic that quotes the
//! offending input.

use vstd::prelude::*;
use crate::text;

verus! {

/// Why a scope string was rejected.
#[derive(Debug)]
pub enum Error {
    /// Not exactly one `:` in the trimmed input.
    MalformedScope(String),
    /// An operation keyword that is none of `read`, `write`, `delete`, `*`.
    InvalidOperation(String),
    /// A resource keyword that is none of `system`, `acl`, `entry`.
    InvalidResource(String),
}

impl PartialEq for Error {
    fn eq(&self, other: &Error) -> (r: bool) {
        match (self, other) {
            (Error::MalformedScope(a), Error::MalformedScope(b)) => text::str_eq(
                a.as_str(),
                b.as_str(),
            ),
            (Error::InvalidOperation(a), Error::InvalidOperation(b)) => text::str_eq(
                a.as_str(),
                b.as_str(),
            ),
            (Error::InvalidResource(a), Error::InvalidResource(b)) => text::str_eq(
                a.as_str(),
                b.as_str(),
            ),
            _ => false,
        }
    }
}

impl vstd::std_specs::cmp::PartialEqSpecImpl for Error {
    open spec fn obeys_eq_spec() -> bool {
        true
    }

    open spec fn eq_spec(&self, other: &Error) -> bool {
        match (self, other) {
            (Error::MalformedScope(a), Error::MalformedScope(b)) => a@ == b@,
            (Error::InvalidOperation(a), Error::InvalidOperation(b)) => a@ == b@,
            (Error::InvalidResource(a), Error::InvalidResource(b)) => a@ == b@,
            _ => false,
        }
    }
}

/// What may be done to a resource.
#[derive(Debug, Clone, Copy, PartialEq, Eq, Structural)]
pub enum Operation {
    Read,
    Write,
    Delete,
    Every,
}

/// What an operation applies to.
#[derive(Debug, Clone, Copy, PartialEq, Eq, Structural)]
pub enum Resource {
    System,
    ACL,
    Entry,
}

/// The operation a keyword denotes, after trimming and lower-casing.
pub open spec fn op_of(s: Seq<char>) -> Option<Operation> {
    let t = text::norm(s);
    if t == "read"@ {
        Some(Operation::Read)
    } else if t == "write"@ {
        Some(Operation::Write)
    } else if t == "delete"@ {
        Some(Operation::Delete)
    } else if t == "*"@ {
        Some(Operation::Every)
    } else {
        None
    }
}

/// The resource a keyword denotes, after trimming and lower-casing.
pub open spec fn rc_of(s: Seq<char>) -> Option<Resource> {
    let t = text::norm(s);
    if t == "system"@ {
        Some(Resource::System)
    } else if t == "acl"@ {
        Some(Resource::ACL)
    } else if t == "entry"@ {
        Some(Resource::Entry)
    } else {
        None
    }
}

/// The diagnostic for an unknown operation keyword.
pub open spec fn invalid_op_text(s: Seq<char>) -> Seq<char> {
    "Invalid operation: "@ + text::quoted(s)
}

/// The diagnostic for an unknown resource keyword.
pub open spec fn invalid_rc_text(s: Seq<char>) -> Seq<char> {
    "Invalid resource: "@ + text::quoted(s)
}

/// The diagnostic for a scope without exactly one `:`.
pub open spec fn malformed_text(s: Seq<char>) -> Seq<char> {
    "Malformed scope: "@ + text::quoted(s)
}

/// The operations a comma-separated segment list denotes, or `None` when
/// any segment is not a keyword.
pub open spec fn ops_of_segments(parts: Seq<Seq<char>>) -> Option<Seq<Operation>>
    decreases parts.len(),
{
    if parts.len() == 0 {
        Some(Seq::empty())
    } else {
        match op_of(parts[0]) {
            Some(op) => match ops_of_segments(parts.drop_first()) {
                Some(rest) => Some(seq![op] + rest),
                None => None,
            },
            None => None,
        }
    }
}

/// The first segment that is not an operation keyword.
pub open spec fn first_bad_segment(parts: Seq<Seq<char>>) -> Seq<char>
    decreases parts.len(),
{
    if parts.len() == 0 {
        Seq::empty()
    } else if op_of(parts[0]) is None {
        parts[0]
    } else {
        first_bad_segment(parts.drop_first())
    }
}

impl Operation {
    /// Reads one operation keyword: whitespace around it and letter case
    /// are ignored; anything unknown is an `InvalidOperation` quoting the
    /// input as given.
    pub fn parse(s: &str) -> (r: Result<Operation, Error>)
        ensures
            op_of(s@) matches Some(op) ==> (r matches Ok(o) && o == op),
            op_of(s@) is None ==> (r matches Err(e) && e matches Error::InvalidOperation(m) && m@
                == invalid_op_text(s@)),
    {
        let v = text::normalize(s);
        if text::chars_eq_str(&v, "read") {
            Ok(Operation::Read)
        } else if text::chars_eq_str(&v, "write") {
            Ok(Operation::Write)
        } else if text::chars_eq_str(&v, "delete") {
            Ok(Operation::Delete)
        } else if text::chars_eq_str(&v, "*") {
            Ok(Operation::Every)
        } else {
            let mut msg = String::from_str("Invalid operation: ");
            let q = text::quote_str(s);
            msg.append(q.as_str());
            proof {
                assert(msg@ =~= invalid_op_text(s@));
            }
            Err(Error::InvalidOperation(msg))
        }
    }

    /// Reads a comma-separated operation list; every segment must be a
    /// keyword, and the first that is not decides the error.
    pub fn parse_list(s: &str) -> (r: Result<Vec<Operation>, Error>)
        ensures
            ops_of_segments(text::split_on(s@, ',')) matches Some(list) ==> (r matches Ok(v) && v@
                == list),
            ops_of_segments(text::split_on(s@, ',')) is None ==> (r matches Err(e) && e matches
                Error::InvalidOperation(m) && m@ == invalid_op_text(
                first_bad_segment(text::split_on(s@, ',')),
            )),
    {
        let mut ops: Vec<Operation> = Vec::new();
        let r = parse_list_into(s, 0, &mut ops);
        proof {
            assert(s@.subrange(0, s@.len() as int) =~= s@);
        }
        match r {
            Ok(_) => {
                proof {
                    match ops_of_segments(text::split_on(s@, ',')) {
                        Some(list) => {
                            assert(ops@ =~= Seq::<Operation>::empty() + list);
                        },
                        None => {},
                    }
                }
                Ok(ops)
            },
            Err(e) => Err(e),
        }
    }

    fn append_text(&self, out: &mut String)
        ensures
            final(out)@ == old(out)@ + op_text(*self),
    {
        match self {
            Operation::Read => {
                out.append("read");
                proof { reveal_strlit("read"); }
            },
            Operation::Write => {
                out.append("write");
                proof { reveal_strlit("write"); }
            },
            Operation::Delete => {
                out.append("delete");
                proof { reveal_strlit("delete"); }
            },
            Operation::Every => {
                out.append("*");
                proof { reveal_strlit("*"); }
            },
        }
    }

    /// The keyword for this operation.
    pub fn to_string(&self) -> (r: String)
        ensures
            r@ == op_text(*self),
    {
        let mut out = String::new();
        self.append_text(&mut out);
        proof {
            assert(Seq::<char>::empty() + op_text(*self) =~= op_text(*self));
        }
        out
    }
}

/// Parses the comma-separated segments of `s` from `from` on, pushing
/// each operation onto `ops`.
fn parse_list_into(s: &str, from: usize, ops: &mut Vec<Operation>) -> (r: Result<(), Error>)
    requires
        from <= s@.len(),
    ensures
        ops_of_segments(text::split_on(s@.subrange(from as int, s@.len() as int), ','))
            matches Some(list) ==> (r is Ok && final(ops)@ == old(ops)@ + list),
        ops_of_segments(text::split_on(s@.subrange(from as int, s@.len() as int), ',')) is None
            ==> (r matches Err(e) && e matches Error::InvalidOperation(m) && m@ == invalid_op_text(
            first_bad_segment(text::split_on(s@.subrange(from as int, s@.len() as int), ',')),
        )),
    decreases s@.len() - from,
{
    let ghost tail = s@.subrange(from as int, s@.len() as int);
    let n = s.unicode_len();
    let mut i: usize = from;
    while i < n && s.get_char(i) != ','
        invariant
            n == s@.len(),
            from <= i <= n,
            forall|j: int| from <= j < i ==> s@[j] != ',',
        decreases n - i,
    {
        i += 1;
    }
    proof {
        assert forall|j: int| 0 <= j < i - from implies tail[j] != ',' by {
            assert(tail[j] == s@[from + j]);
        }
        if i < n {
            assert(tail[i - from] == ',');
        }
        text::lemma_first_at_is(tail, ',', i - from as int);
    }
    let seg = s.substring_char(from, i);
    proof {
        assert(seg@ =~= tail.subrange(0, i - from as int));
    }
    let op = match Operation::parse(seg) {
        Ok(op) => op,
        Err(e) => {
            proof {
                let parts = text::split_on(tail, ',');
                if i == n {
                    assert(parts == seq![tail]);
                    assert(tail.subrange(0, tail.len() as int) =~= tail);
                    assert(seg@ == tail);
                    assert(parts[0] == seg@);
                } else {
                    assert(parts[0] == seg@);
                }
                assert(op_of(parts[0]) is None);
                assert(ops_of_segments(parts) is None);
                assert(first_bad_segment(parts) == seg@);
            }
            return Err(e);
        },
    };
    ops.push(op);
    if i == n {
        proof {
            let parts = text::split_on(tail, ',');
            assert(parts == seq![tail]);
            assert(tail.subrange(0, tail.len() as int) =~= tail);
            assert(seg@ == tail);
            assert(parts.drop_first() =~= Seq::<Seq<char>>::empty());
            assert(ops_of_segments(parts.drop_first()) == Some(Seq::<Operation>::empty()));
            assert(ops_of_segments(parts) == Some(seq![op] + Seq::<Operation>::empty()));
            assert(seq![op] + Seq::<Operation>::empty() =~= seq![op]);
            assert(ops@ =~= old(ops)@ + seq![op]);
        }
        return Ok(());
    }
    let ghost mid = ops@;
    let r = parse_list_into(s, i + 1, ops);
    proof {
        let parts = text::split_on(tail, ',');
        let tail2 = s@.subrange(i + 1, s@.len() as int);
        assert(tail.subrange(i - from + 1, tail.len() as int) =~= tail2);
        assert(parts == seq![seg@] + text::split_on(tail2, ','));
        assert(parts[0] == seg@);
        assert(parts.drop_first() =~= text::split_on(tail2, ','));
        assert(mid == old(ops)@ + seq![op]);
        match ops_of_segments(text::split_on(tail2, ',')) {
            Some(rest) => {
                assert(ops_of_segments(parts) == Some(seq![op] + rest));
                assert(ops@ == mid + rest);
                assert(old(ops)@ + (seq![op] + rest) =~= (old(ops)@ + seq![op]) + rest);
            },
            None => {
                assert(ops_of_segments(parts) is None);
                assert(first_bad_segment(parts) == first_bad_segment(text::split_on(tail2, ',')));
            },
        }
    }
    r
}

impl Resource {
    /// Reads one resource keyword: whitespace around it and letter case
    /// are ignored; anything unknown is an `InvalidResource` quoting the
    /// input as given.
    pub fn parse(s: &str) -> (r: Result<Resource, Error>)
        ensures
            rc_of(s@) matches Some(rc) ==> (r matches Ok(o) && o == rc),
            rc_of(s@) is None ==> (r matches Err(e) && e matches Error::InvalidResource(m) && m@
                == invalid_rc_text(s@)),
    {
        let v = text::normalize(s);
        if text::chars_eq_str(&v, "system") {
            Ok(Resource::System)
        } else if text::chars_eq_str(&v, "acl") {
            Ok(Resource::ACL)
        } else if text::chars_eq_str(&v, "entry") {
            Ok(Resource::Entry)
        } else {
            let mut msg = String::from_str("Invalid resource: ");
            let q = text::quote_str(s);
            msg.append(q.as_str());
            proof {
                assert(msg@ =~= invalid_rc_text(s@));
            }
            Err(Error::InvalidResource(msg))
        }
    }

    fn append_text(&self, out: &mut String)
        ensures
            final(out)@ == old(out)@ + rc_text(*self),
    {
        match self {
            Resource::System => {
                out.append("system");
                proof { reveal_strlit("system"); }
            },
            Resource::ACL => {
                out.append("acl");
                proof { reveal_strlit("acl"); }
            },
            Resource::Entry => {
                out.append("entry");
                proof { reveal_strlit("entry"); }
            },
        }
    }

    /// The keyword for this resource.
    pub fn to_string(&self) -> (r: String)
        ensures
            r@ == rc_text(*self),
    {
        let mut out = String::new();
        self.append_text(&mut out);
        proof {
            assert(Seq::<char>::empty() + rc_text(*self) =~= rc_text(*self));
        }
        out
    }
}

/// The keyword an operation renders as.
pub open spec fn op_text(op: Operation) -> Seq<char> {
    match op {
        Operation::Read => "read"@,
        Operation::Write => "write"@,
        Operation::Delete => "delete"@,
        Operation::Every => "*"@,
    }
}

/// The keyword a resource renders as.
pub open spec fn rc_text(rc: Resource) -> Seq<char> {
    match rc {
        Resource::System => "system"@,
        Resource::ACL => "acl"@,
        Resource::Entry => "entry"@,
    }
}

/// An operation list rendered with `,` between the keywords.
pub open spec fn ops_text(ops: Seq<Operation>) -> Seq<char>
    decreases ops.len(),
{
    if ops.len() == 0 {
        Seq::empty()
    } else if ops.len() == 1 {
        op_text(ops[0])
    } else {
        ops_text(ops.drop_last()) + ","@ + op_text(ops.last())
    }
}

/// A scope rendered as `ops:resource`.
pub open spec fn scope_text(sc: Scope) -> Seq<char> {
    ops_text(sc.ops@) + ":"@ + rc_text(sc.resource)
}

/// A scope set rendered with `; ` between the scopes.
pub open spec fn scopes_text(ss: Seq<Scope>) -> Seq<char>
    decreases ss.len(),
{
    if ss.len() == 0 {
        Seq::empty()
    } else if ss.len() == 1 {
        scope_text(ss[0])
    } else {
        scopes_text(ss.drop_last()) + "; "@ + scope_text(ss.last())
    }
}

/// One or more operations on one resource.
#[derive(Debug, Clone)]
pub struct Scope {
    pub ops: Vec<Operation>,
    pub resource: Resource,
}

impl PartialEq for Scope {
    fn eq(&self, other: &Scope) -> (r: bool) {
        if self.resource != other.resource {
            return false;
        }
        let n = self.ops.len();
        if other.ops.len() != n {
            return false;
        }
        let mut i: usize = 0;
        while i < n
            invariant
                n == self.ops@.len(),
                other.ops@.len() == n,
                i <= n,
                forall|j: int| 0 <= j < i ==> self.ops@[j] == other.ops@[j],
            decreases n - i,
        {
            if self.ops[i] != other.ops[i] {
                return false;
            }
            i += 1;
        }
        proof {
            assert(self.ops@ =~= other.ops@);
        }
        true
    }
}

impl vstd::std_specs::cmp::PartialEqSpecImpl for Scope {
    open spec fn obeys_eq_spec() -> bool {
        true
    }

    open spec fn eq_spec(&self, other: &Scope) -> bool {
        self.ops@ == other.ops@ && self.resource == other.resource
    }
}

/// Whether `sc` grants `op` on `rc`: the resource must match and the
/// operation list must hold `op` itself or the wildcard.
pub open spec fn scope_allows(sc: Scope, op: Operation, rc: Resource) -> bool {
    sc.resource == rc && exists|i: int|
        0 <= i < sc.ops@.len() && ((#[trigger] sc.ops@[i]) == op || sc.ops@[i] == Operation::Every)
}

/// The two halves of a trimmed scope string around its first `:`.
pub open spec fn scope_parts(s: Seq<char>) -> (Seq<char>, Seq<char>) {
    let t = text::trimmed(s);
    let k = text::first_at(t, ':');
    (t.subrange(0, k), t.subrange(k + 1, t.len() as int))
}

/// Exactly what `Scope::parse` returns on `s`: the single `:` rule, then
/// the operation list, then the resource, first failure first.
pub open spec fn parses_to(s: Seq<char>, r: Result<Scope, Error>) -> bool {
    if text::count_of(text::trimmed(s), ':') != 1 {
        r matches Err(e) && e matches Error::MalformedScope(m) && m@ == malformed_text(s)
    } else {
        let p = scope_parts(s);
        match ops_of_segments(text::split_on(p.0, ',')) {
            None => r matches Err(e) && e matches Error::InvalidOperation(m) && m@
                == invalid_op_text(first_bad_segment(text::split_on(p.0, ','))),
            Some(list) => match rc_of(p.1) {
                None => r matches Err(e) && e matches Error::InvalidResource(m) && m@
                    == invalid_rc_text(p.1),
                Some(rc) => r matches Ok(sc) && sc.ops@ == list && sc.resource == rc,
            },
        }
    }
}

impl Scope {
    /// A scope granting one operation on one resource.
    pub fn new(op: Operation, resource: Resource) -> (r: Scope)
        ensures
            r.ops@ == seq![op],
            r.resource == resource,
    {
        let ops = vec![op];
        proof {
            assert(ops@ =~= seq![op]);
        }
        Scope { ops, resource }
    }

    /// Reads `ops:resource`: the input is trimmed, must hold exactly one
    /// `:`, and both halves must be keyword lists as their parsers demand.
    pub fn parse(s: &str) -> (r: Result<Scope, Error>)
        ensures
            parses_to(s@, r),
    {
        let (a, b) = text::trim_bounds(s);
        let ghost t = text::trimmed(s@);
        let mut cnt: usize = 0;
        let mut k: usize = 0;
        let mut i: usize = a;
        while i < b
            invariant
                a <= i <= b <= s@.len(),
                t == s@.subrange(a as int, b as int),
                cnt <= i - a,
                cnt as nat == text::count_of(s@.subrange(a as int, i as int), ':'),
                cnt > 0 ==> (a <= k < i && s@[k as int] == ':' && forall|j: int|
                    a <= j < k ==> s@[j] != ':'),
                cnt == 1 ==> forall|j: int| k < j < i ==> s@[j] != ':',
                cnt == 0 ==> forall|j: int| a <= j < i ==> s@[j] != ':',
            decreases b - i,
        {
            let c = s.get_char(i);
            proof {
                let pre = s@.subrange(a as int, i as int);
                let ext = s@.subrange(a as int, i + 1);
                assert(ext.drop_last() =~= pre);
                assert(ext.last() == s@[i as int]);
            }
            if c == ':' {
                if cnt == 0 {
                    k = i;
                }
                cnt += 1;
            }
            i += 1;
        }
        proof {
            assert(cnt as nat == text::count_of(t, ':'));
        }
        if cnt != 1 {
            let mut msg = String::from_str("Malformed scope: ");
            let q = text::quote_str(s);
            msg.append(q.as_str());
            proof {
                assert(msg@ =~= malformed_text(s@));
            }
            return Err(Error::MalformedScope(msg));
        }
        proof {
            assert forall|j: int| 0 <= j < k - a implies t[j] != ':' by {
                assert(t[j] == s@[a + j]);
            }
            assert(t[k - a as int] == ':');
            text::lemma_first_at_is(t, ':', k - a as int);
        }
        let p1 = s.substring_char(a, k);
        let p2 = s.substring_char(k + 1, b);
        proof {
            assert(p1@ =~= scope_parts(s@).0);
            assert(p2@ =~= scope_parts(s@).1);
        }
        let ops = match Operation::parse_list(p1) {
            Ok(ops) => ops,
            Err(e) => {
                return Err(e);
            },
        };
        let resource = match Resource::parse(p2) {
            Ok(rc) => rc,
            Err(e) => {
                return Err(e);
            },
        };
        Ok(Scope { ops, resource })
    }

    /// Parses each string of `specs` as a scope; the first failure is the
    /// result.
    pub fn parse_set(specs: &Vec<String>) -> (r: Result<Vec<Scope>, Error>)
        ensures
            (forall|j: int| 0 <= j < specs@.len() ==> scope_ok(#[trigger] specs@[j]@)) ==> (r
                matches Ok(v) && v@.len() == specs@.len() && forall|j: int|
                0 <= j < v@.len() ==> parses_to(specs@[j]@, Ok(#[trigger] v@[j]))),
            (exists|j: int| 0 <= j < specs@.len() && !scope_ok(#[trigger] specs@[j]@)) ==> (r
                matches Err(e) && parses_to(
                specs@[first_bad_scope(specs@)]@,
                Err::<Scope, Error>(e),
            )),
    {
        let n = specs.len();
        let mut res: Vec<Scope> = Vec::new();
        let mut i: usize = 0;
        while i < n
            invariant
                n == specs@.len(),
                i <= n,
                res@.len() == i,
                forall|j: int| 0 <= j < i ==> scope_ok(#[trigger] specs@[j]@),
                forall|j: int| 0 <= j < i ==> parses_to(specs@[j]@, Ok(#[trigger] res@[j])),
            decreases n - i,
        {
            match Scope::parse(specs[i].as_str()) {
                Ok(sc) => {
                    res.push(sc);
                },
                Err(e) => {
                    proof {
                        assert(!scope_ok(specs@[i as int]@));
                        lemma_first_bad_scope(specs@, i as int);
                    }
                    return Err(e);
                },
            }
            i += 1;
        }
        Ok(res)
    }

    /// Whether this scope grants `op` on `rc`.
    pub fn allows(&self, op: Operation, rc: Resource) -> (r: bool)
        ensures
            r == scope_allows(*self, op, rc),
    {
        if self.resource == rc {
            let n = self.ops.len();
            let mut i: usize = 0;
            while i < n
                invariant
                    self.resource == rc,
                    n == self.ops@.len(),
                    i <= n,
                    forall|j: int|
                        0 <= j < i ==> !((#[trigger] self.ops@[j]) == op || self.ops@[j]
                            == Operation::Every),
                decreases n - i,
            {
                if self.ops[i] == op || self.ops[i] == Operation::Every {
                    proof {
                        assert(scope_allows(*self, op, rc));
                    }
                    return true;
                }
                i += 1;
            }
        }
        false
    }

    /// This scope rendered as `ops:resource`.
    pub fn to_string(&self) -> (r: String)
        ensures
            r@ == scope_text(*self),
    {
        let mut out = String::new();
        let n = self.ops.len();
        let mut i: usize = 0;
        while i < n
            invariant
                n == self.ops@.len(),
                i <= n,
                out@ == ops_text(self.ops@.subrange(0, i as int)),
            decreases n - i,
        {
            if i > 0 {
                out.append(",");
                proof { reveal_strlit(","); }
            }
            self.ops[i].append_text(&mut out);
            proof {
                let pre = self.ops@.subrange(0, i as int);
                let ext = self.ops@.subrange(0, i + 1);
                assert(ext.drop_last() =~= pre);
                assert(ext.last() == self.ops@[i as int]);
                if i == 0 {
                    assert(out@ =~= ops_text(ext));
                } else {
                    assert(out@ =~= ops_text(ext));
                }
            }
            i += 1;
        }
        proof {
            assert(self.ops@.subrange(0, n as int) =~= self.ops@);
        }
        out.append(":");
        proof { reveal_strlit(":"); }
        self.resource.append_text(&mut out);
        proof {
            assert(out@ =~= scope_text(*self));
        }
        out
    }
}

/// Whether a scope string parses cleanly.
pub open spec fn scope_ok(s: Seq<char>) -> bool {
    &&& text::count_of(text::trimmed(s), ':') == 1
    &&& ops_of_segments(text::split_on(scope_parts(s).0, ',')) is Some
    &&& rc_of(scope_parts(s).1) is Some
}

/// The first index of `specs` whose string does not parse.
pub open spec fn first_bad_scope(specs: Seq<String>) -> int
    decreases specs.len(),
{
    if specs.len() == 0 {
        0
    } else if !scope_ok(specs[0]@) {
        0
    } else {
        1 + first_bad_scope(specs.drop_first())
    }
}

proof fn lemma_first_bad_scope(specs: Seq<String>, i: int)
    requires
        0 <= i < specs.len(),
        forall|j: int| 0 <= j < i ==> scope_ok(#[trigger] specs[j]@),
        !scope_ok(specs[i]@),
    ensures
        first_bad_scope(specs) == i,
    decreases i,
{
    if i > 0 {
        assert(scope_ok(specs[0]@));
        lemma_first_bad_scope(specs.drop_first(), i - 1);
    }
}

/// A set of scopes; access is granted when any member grants it.
#[derive(Debug, Clone)]
pub struct Scopes(Vec<Scope>);

impl Scopes {
    /// The member scopes.
    pub closed spec fn spec_scopes(&self) -> Seq<Scope> {
        self.0@
    }

    /// Wraps a list of scopes.
    pub fn new(s: Vec<Scope>) -> (r: Scopes)
        ensures
            r.spec_scopes() == s@,
    {
        Scopes(s)
    }

    /// A borrow of the member scopes.
    pub fn list(&self) -> (r: &Vec<Scope>)
        ensures
            r@ == self.spec_scopes(),
    {
        &self.0
    }

    /// Whether any member scope grants `op` on `rc`.
    pub fn allows(&self, op: Operation, rc: Resource) -> (r: bool)
        ensures
            r == exists|i: int|
                0 <= i < self.spec_scopes().len() && scope_allows(
                    #[trigger] self.spec_scopes()[i],
                    op,
                    rc,
                ),
    {
        let n = self.0.len();
        let mut i: usize = 0;
        while i < n
            invariant
                n == self.0@.len(),
                i <= n,
                forall|j: int| 0 <= j < i ==> !scope_allows(#[trigger] self.0@[j], op, rc),
            decreases n - i,
        {
            if self.0[i].allows(op, rc) {
                proof {
                    assert(scope_allows(self.spec_scopes()[i as int], op, rc));
                }
                return true;
            }
            i += 1;
        }
        false
    }

    /// The member scopes rendered with `; ` between them.
    pub fn to_string(&self) -> (r: String)
        ensures
            r@ == scopes_text(self.spec_scopes()),
    {
        let mut out = String::new();
        let n = self.0.len();
        let mut i: usize = 0;
        while i < n
            invariant
                n == self.0@.len(),
                i <= n,
                out@ == scopes_text(self.0@.subrange(0, i as int)),
            decreases n - i,
        {
            if i > 0 {
                out.append("; ");
                proof { reveal_strlit("; "); }
            }
            let piece = self.0[i].to_string();
            out.append(piece.as_str());
            proof {
                let pre = self.0@.subrange(0, i as int);
                let ext = self.0@.subrange(0, i + 1);
                assert(ext.drop_last() =~= pre);
                assert(ext.last() == self.0@[i as int]);
                assert(out@ =~= scopes_text(ext));
            }
            i += 1;
        }
        proof {
            assert(self.0@.subrange(0, n as int) =~= self.0@);
        }
        out
    }
}

} // verus!
