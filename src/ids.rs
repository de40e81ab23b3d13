use vstd::prelude::*;
use vstd::string::*;

use crate::error::JobsDomainError;

verus! {

/// What `char::is_alphanumeric` answers for a character (Unicode
/// alphabetic or numeric).
pub uninterp spec fn alphanumeric(c: char) -> bool;

/// Relies on `char::is_alphanumeric`: its answer depends on the character alone.
#[verifier::external_body]
fn char_is_alphanumeric(c: char) -> (r: bool)
    ensures
        r == alphanumeric(c),
{
    c.is_alphanumeric()
}

pub open spec fn slug_char(c: char) -> bool {
    alphanumeric(c) || c == '-' || c == '_'
}

/// A slug: 1 to 64 characters, each alphanumeric, `-` or `_`.
pub open spec fn valid_slug(s: Seq<char>) -> bool {
    &&& 1 <= s.len() <= 64
    &&& forall|i: int| 0 <= i < s.len() ==> slug_char(#[trigger] s[i])
}

/// A prefixed id: the exact prefix, a non-empty suffix, and a valid slug overall.
pub open spec fn valid_prefixed_id(s: Seq<char>, prefix: Seq<char>) -> bool {
    &&& prefix.len() < s.len()
    &&& s.subrange(0, prefix.len() as int) == prefix
    &&& valid_slug(s)
}

pub open spec fn task_type_char(c: char) -> bool {
    ('a' <= c && c <= 'z') || ('0' <= c && c <= '9') || c == '-'
}

/// A task-type slug: 1 to 48 characters of lower-case ASCII letters, digits
/// and `-`, neither starting nor ending with `-`.
pub open spec fn valid_task_type(s: Seq<char>) -> bool {
    &&& 1 <= s.len() <= 48
    &&& forall|i: int| 0 <= i < s.len() ==> task_type_char(#[trigger] s[i])
    &&& s[0] != '-'
    &&& s[s.len() - 1] != '-'
}

fn is_valid_slug(s: &str) -> (r: bool)
    ensures
        r == valid_slug(s@),
{
    let n = s.unicode_len();
    if n == 0 || n > 64 {
        return false;
    }
    let mut i: usize = 0;
    while i < n
        invariant
            n == s@.len(),
            0 <= i <= n,
            forall|j: int| 0 <= j < i ==> slug_char(#[trigger] s@[j]),
        decreases n - i,
    {
        let c = s.get_char(i);
        if !(char_is_alphanumeric(c) || c == '-' || c == '_') {
            return false;
        }
        i += 1;
    }
    true
}

/// Whether `s` begins with `prefix`.
pub fn starts_with(s: &str, prefix: &str) -> (r: bool)
    ensures
        r == (prefix@.len() <= s@.len() && s@.subrange(0, prefix@.len() as int) == prefix@),
{
    let n = s.unicode_len();
    let m = prefix.unicode_len();
    if m > n {
        return false;
    }
    let mut i: usize = 0;
    while i < m
        invariant
            n == s@.len(),
            m == prefix@.len(),
            m <= n,
            0 <= i <= m,
            forall|j: int| 0 <= j < i ==> s@[j] == prefix@[j],
        decreases m - i,
    {
        if s.get_char(i) != prefix.get_char(i) {
            assert(s@.subrange(0, m as int)[i as int] != prefix@[i as int]);
            return false;
        }
        i += 1;
    }
    assert(s@.subrange(0, m as int) =~= prefix@);
    true
}

fn is_valid_prefixed_id(s: &str, prefix: &str) -> (r: bool)
    ensures
        r == valid_prefixed_id(s@, prefix@),
{
    starts_with(s, prefix) && prefix.unicode_len() < s.unicode_len() && is_valid_slug(s)
}

/// Job identifier: `job_` followed by slug characters.
#[derive(Debug, PartialEq, Eq, Hash)]
pub struct JobId(String);

/// Task identifier: `task_` followed by slug characters.
#[derive(Debug, PartialEq, Eq, Hash)]
pub struct TaskId(String);

/// Organisation identifier: `org_` followed by slug characters.
#[derive(Debug, PartialEq, Eq, Hash)]
pub struct OrgId(String);

/// Task type slug, e.g. `email-send`.
#[derive(Debug, PartialEq, Eq, Hash)]
pub struct TaskType(String);

impl Clone for JobId {
    fn clone(&self) -> (r: Self)
        ensures
            r@ == self@,
    {
        proof {
            use_type_invariant(self);
        }
        JobId(self.0.clone())
    }
}

impl View for JobId {
    type V = Seq<char>;

    closed spec fn view(&self) -> Seq<char> {
        self.0@
    }
}

impl Clone for TaskId {
    fn clone(&self) -> (r: Self)
        ensures
            r@ == self@,
    {
        proof {
            use_type_invariant(self);
        }
        TaskId(self.0.clone())
    }
}

impl View for TaskId {
    type V = Seq<char>;

    closed spec fn view(&self) -> Seq<char> {
        self.0@
    }
}

impl Clone for OrgId {
    fn clone(&self) -> (r: Self)
        ensures
            r@ == self@,
    {
        proof {
            use_type_invariant(self);
        }
        OrgId(self.0.clone())
    }
}

impl View for OrgId {
    type V = Seq<char>;

    closed spec fn view(&self) -> Seq<char> {
        self.0@
    }
}

impl Clone for TaskType {
    fn clone(&self) -> (r: Self)
        ensures
            r@ == self@,
    {
        proof {
            use_type_invariant(self);
        }
        TaskType(self.0.clone())
    }
}

impl View for TaskType {
    type V = Seq<char>;

    closed spec fn view(&self) -> Seq<char> {
        self.0@
    }
}

impl JobId {
    #[verifier::type_invariant]
    spec fn inv(&self) -> bool {
        valid_prefixed_id(self.0@, "job_"@)
    }

    /// Accepts exactly the valid `job_` ids; the error carries the input.
    pub fn new(raw: &str) -> (r: Result<Self, JobsDomainError>)
        ensures
            valid_prefixed_id(raw@, "job_"@) <==> r is Ok,
            r matches Ok(id) ==> id@ == raw@,
            r matches Err(e) ==> (e matches JobsDomainError::InvalidJobId(s) && s@ == raw@),
    {
        if !is_valid_prefixed_id(raw, "job_") {
            return Err(JobsDomainError::InvalidJobId(raw.to_string()));
        }
        Ok(JobId(raw.to_string()))
    }

    pub fn as_str(&self) -> (r: &str)
        ensures
            r@ == self@,
            valid_prefixed_id(r@, "job_"@),
    {
        proof {
            use_type_invariant(self);
        }
        self.0.as_str()
    }
}

impl TaskId {
    #[verifier::type_invariant]
    spec fn inv(&self) -> bool {
        valid_prefixed_id(self.0@, "task_"@)
    }

    /// Accepts exactly the valid `task_` ids; the error carries the input.
    pub fn new(raw: &str) -> (r: Result<Self, JobsDomainError>)
        ensures
            valid_prefixed_id(raw@, "task_"@) <==> r is Ok,
            r matches Ok(id) ==> id@ == raw@,
            r matches Err(e) ==> (e matches JobsDomainError::InvalidTaskId(s) && s@ == raw@),
    {
        if !is_valid_prefixed_id(raw, "task_") {
            return Err(JobsDomainError::InvalidTaskId(raw.to_string()));
        }
        Ok(TaskId(raw.to_string()))
    }

    pub fn as_str(&self) -> (r: &str)
        ensures
            r@ == self@,
            valid_prefixed_id(r@, "task_"@),
    {
        proof {
            use_type_invariant(self);
        }
        self.0.as_str()
    }
}

impl OrgId {
    #[verifier::type_invariant]
    spec fn inv(&self) -> bool {
        valid_prefixed_id(self.0@, "org_"@)
    }

    /// Accepts exactly the valid `org_` ids; the error carries the input.
    pub fn new(raw: &str) -> (r: Result<Self, JobsDomainError>)
        ensures
            valid_prefixed_id(raw@, "org_"@) <==> r is Ok,
            r matches Ok(id) ==> id@ == raw@,
            r matches Err(e) ==> (e matches JobsDomainError::InvalidOrgId(s) && s@ == raw@),
    {
        if !is_valid_prefixed_id(raw, "org_") {
            return Err(JobsDomainError::InvalidOrgId(raw.to_string()));
        }
        Ok(OrgId(raw.to_string()))
    }

    pub fn as_str(&self) -> (r: &str)
        ensures
            r@ == self@,
            valid_prefixed_id(r@, "org_"@),
    {
        proof {
            use_type_invariant(self);
        }
        self.0.as_str()
    }
}

impl TaskType {
    #[verifier::type_invariant]
    spec fn inv(&self) -> bool {
        valid_task_type(self.0@)
    }

    /// Accepts exactly the valid task-type slugs; the error carries the input.
    pub fn new(raw: &str) -> (r: Result<Self, JobsDomainError>)
        ensures
            valid_task_type(raw@) <==> r is Ok,
            r matches Ok(t) ==> t@ == raw@,
            r matches Err(e) ==> (e matches JobsDomainError::InvalidTaskType(s) && s@ == raw@),
    {
        let n = raw.unicode_len();
        if n == 0 || n > 48 || raw.get_char(0) == '-' || raw.get_char(n - 1) == '-' {
            return Err(JobsDomainError::InvalidTaskType(raw.to_string()));
        }
        let mut i: usize = 0;
        while i < n
            invariant
                n == raw@.len(),
                0 <= i <= n,
                forall|j: int| 0 <= j < i ==> task_type_char(#[trigger] raw@[j]),
            decreases n - i,
        {
            let c = raw.get_char(i);
            if !(('a' <= c && c <= 'z') || ('0' <= c && c <= '9') || c == '-') {
                return Err(JobsDomainError::InvalidTaskType(raw.to_string()));
            }
            i += 1;
        }
        Ok(TaskType(raw.to_string()))
    }

    pub fn as_str(&self) -> (r: &str)
        ensures
            r@ == self@,
            valid_task_type(r@),
    {
        proof {
            use_type_invariant(self);
        }
        self.0.as_str()
    }
}

} // verus!
