//! Activities: the named things a user can be doing.

use vstd::prelude::*;

verus! {

/// Whether `char::is_alphanumeric` of the standard library accepts `c`:
/// whether Unicode counts the character as alphabetic or as a number.
pub uninterp spec fn alphanumeric(c: char) -> bool;

/// Calls `char::is_alphanumeric`. Taken on trust: the answer depends on
/// the character alone. Nothing is claimed of which characters it accepts.
#[verifier::external_body]
fn is_alphanumeric(c: char) -> (r: bool)
    ensures
        r == alphanumeric(c),
{
    c.is_alphanumeric()
}

/// The characters an identifier may hold, given whether the character is
/// alphanumeric.
pub open spec fn allowed(c: char, alnum: bool) -> bool {
    alnum || c == '_' || c == '-' || c == ':'
}

/// A character that may stand in an identifier.
pub open spec fn key_char(c: char) -> bool {
    allowed(c, alphanumeric(c))
}

/// An identifier is valid when it is not empty and holds only alphanumerics,
/// `_`, `-` and `:`.
pub open spec fn valid_key(s: Seq<char>) -> bool {
    s.len() > 0 && forall|i: int| 0 <= i < s.len() ==> key_char(#[trigger] s[i])
}

/// Decides whether `c` may stand in an identifier, from the answer of the
/// alphanumeric test for it.
pub fn char_allowed(c: char, alnum: bool) -> (r: bool)
    ensures
        r == allowed(c, alnum),
{
    alnum || c == '_' || c == '-' || c == ':'
}

/// The identifier that was refused.
#[derive(Debug)]
pub struct ValidationError {
    pub key: String,
}

/// A named activity. Its identifier is always valid.
#[derive(Debug)]
pub struct Activity {
    key: String,
}

impl View for Activity {
    type V = Seq<char>;

    closed spec fn view(&self) -> Seq<char> {
        self.key@
    }
}

impl Activity {
    #[verifier::type_invariant]
    spec fn inv(&self) -> bool {
        valid_key(self.key@)
    }

    /// Makes an activity of `key` if it is a valid identifier, and hands the
    /// identifier back in the error if it is not.
    pub fn new(key: String) -> (r: Result<Activity, ValidationError>)
        ensures
            valid_key(key@) <==> r is Ok,
            r matches Ok(a) ==> a@ == key@,
            r matches Err(e) ==> e.key@ == key@,
    {
        let chars = crate::text::to_chars(key.as_str());
        if chars.len() == 0 {
            return Err(ValidationError { key });
        }
        let mut i: usize = 0;
        while i < chars.len()
            invariant
                i <= chars.len(),
                chars@ == key@,
                forall|j: int| 0 <= j < i ==> key_char(#[trigger] chars@[j]),
            decreases chars.len() - i,
        {
            let c = chars[i];
            let alnum = is_alphanumeric(c);
            if !char_allowed(c, alnum) {
                return Err(ValidationError { key });
            }
            i = i + 1;
        }
        Ok(Activity { key })
    }

    /// The identifier.
    pub fn as_str(&self) -> (s: &str)
        ensures
            s@ == self@,
            valid_key(s@),
    {
        proof {
            use_type_invariant(self);
        }
        self.key.as_str()
    }

    /// The identifier as an owned string.
    pub fn to_string(&self) -> (s: String)
        ensures
            s@ == self@,
            valid_key(s@),
    {
        proof {
            use_type_invariant(self);
        }
        self.key.clone()
    }
}

impl Clone for Activity {
    fn clone(&self) -> (r: Self)
        ensures
            r == *self,
    {
        proof {
            use_type_invariant(self);
        }
        Activity { key: self.key.clone() }
    }
}

impl PartialEq for Activity {
    fn eq(&self, other: &Self) -> (r: bool) {
        self.key == other.key
    }
}

impl Eq for Activity {}

impl vstd::std_specs::cmp::PartialEqSpecImpl for Activity {
    open spec fn obeys_eq_spec() -> bool {
        true
    }

    open spec fn eq_spec(&self, other: &Self) -> bool {
        self@ == other@
    }
}

/// The identifiers of a list of activities.
pub open spec fn names(activities: Seq<Activity>) -> Seq<Seq<char>> {
    activities.map_values(|a: Activity| a@)
}

/// A copy of a list of activities.
pub fn clone_all(activities: &Vec<Activity>) -> (r: Vec<Activity>)
    ensures
        r@ == activities@,
{
    let mut out: Vec<Activity> = Vec::new();
    let mut i: usize = 0;
    while i < activities.len()
        invariant
            i <= activities.len(),
            out@ == activities@.take(i as int),
        decreases activities.len() - i,
    {
        out.push(activities[i].clone());
        proof {
            assert(activities@.take(i + 1) =~= activities@.take(i as int).push(activities@[i as int]));
        }
        i = i + 1;
    }
    proof {
        assert(activities@.take(i as int) =~= activities@);
    }
    out
}

/// Whether two lists name the same activities in the same order.
pub fn same_all(a: &Vec<Activity>, b: &Vec<Activity>) -> (r: bool)
    ensures
        r == (names(a@) == names(b@)),
{
    if a.len() != b.len() {
        proof {
            assert(names(a@).len() != names(b@).len());
        }
        return false;
    }
    let mut i: usize = 0;
    while i < a.len()
        invariant
            i <= a.len(),
            a.len() == b.len(),
            forall|j: int| 0 <= j < i ==> a@[j]@ == b@[j]@,
        decreases a.len() - i,
    {
        if a[i] != b[i] {
            proof {
                assert(names(a@)[i as int] != names(b@)[i as int]);
            }
            return false;
        }
        i = i + 1;
    }
    proof {
        assert(names(a@) =~= names(b@));
    }
    true
}

/// Whether `activities` holds one with the identifier of `activity`.
pub fn contains(activities: &Vec<Activity>, activity: &Activity) -> (r: bool)
    ensures
        r == names(activities@).contains(activity@),
{
    let mut i: usize = 0;
    while i < activities.len()
        invariant
            i <= activities.len(),
            forall|j: int| 0 <= j < i ==> activities@[j]@ != activity@,
        decreases activities.len() - i,
    {
        if activities[i] == *activity {
            proof {
                assert(names(activities@)[i as int] == activity@);
            }
            return true;
        }
        i = i + 1;
    }
    proof {
        assert forall|j: int| 0 <= j < names(activities@).len() implies names(activities@)[j]
            != activity@ by {
            assert(activities@[j]@ != activity@);
        }
    }
    false
}

/// The order of identifiers: character by character, by code point, a
/// shorter identifier before the longer ones that begin with it.
pub open spec fn key_less(a: Seq<char>, b: Seq<char>) -> bool
    decreases a.len(),
{
    if b.len() == 0 {
        false
    } else if a.len() == 0 {
        true
    } else if a[0] != b[0] {
        a[0] < b[0]
    } else {
        key_less(a.skip(1), b.skip(1))
    }
}

/// No identifier stands before itself.
pub proof fn lemma_key_less_irreflexive(a: Seq<char>)
    ensures
        !key_less(a, a),
    decreases a.len(),
{
    if a.len() > 0 {
        lemma_key_less_irreflexive(a.skip(1));
    }
}

/// Of two different identifiers one stands before the other.
pub proof fn lemma_key_less_total(a: Seq<char>, b: Seq<char>)
    requires
        a != b,
    ensures
        key_less(a, b) || key_less(b, a),
    decreases a.len(),
{
    if a.len() > 0 && b.len() > 0 && a[0] == b[0] {
        if a.skip(1) == b.skip(1) {
            assert(a =~= seq![a[0]] + a.skip(1));
            assert(b =~= seq![b[0]] + b.skip(1));
        }
        lemma_key_less_total(a.skip(1), b.skip(1));
    } else if a.len() == 0 && b.len() == 0 {
        assert(a =~= b);
    }
}

/// What stands before an identifier stands before all that it stands
/// before.
pub proof fn lemma_key_less_transitive(a: Seq<char>, b: Seq<char>, c: Seq<char>)
    requires
        key_less(a, b),
        key_less(b, c),
    ensures
        key_less(a, c),
    decreases a.len(),
{
    if a.len() > 0 && a[0] == b[0] && b[0] == c[0] {
        lemma_key_less_transitive(a.skip(1), b.skip(1), c.skip(1));
    }
}

impl Activity {
    /// Whether this activity stands before `other` in the order of
    /// identifiers.
    pub fn precedes(&self, other: &Activity) -> (r: bool)
        ensures
            r == key_less(self@, other@),
    {
        let a = crate::text::to_chars(self.key.as_str());
        let b = crate::text::to_chars(other.key.as_str());
        let mut i: usize = 0;
        proof {
            assert(a@.skip(0) =~= a@);
            assert(b@.skip(0) =~= b@);
        }
        while i < a.len() && i < b.len() && a[i] == b[i]
            invariant
                i <= a.len(),
                i <= b.len(),
                key_less(a@, b@) == key_less(a@.skip(i as int), b@.skip(i as int)),
            decreases a.len() - i,
        {
            proof {
                assert(a@.skip(i as int).skip(1) =~= a@.skip(i + 1));
                assert(b@.skip(i as int).skip(1) =~= b@.skip(i + 1));
            }
            i = i + 1;
        }
        proof {
            let x = a@.skip(i as int);
            let y = b@.skip(i as int);
            assert(x.len() == a.len() - i && y.len() == b.len() - i);
            if i < a.len() && i < b.len() {
                assert(x[0] == a@[i as int] && y[0] == b@[i as int]);
            }
        }
        if i >= b.len() {
            false
        } else if i >= a.len() {
            true
        } else {
            a[i] < b[i]
        }
    }
}

} // verus!
