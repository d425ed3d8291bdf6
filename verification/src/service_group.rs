//! The identity of a service group: `service.group`, optionally followed by
//! `@organization`.

use crate::error::{Error, ErrorView};
use vstd::prelude::*;
use vstd::std_specs::iter::IteratorSpec;
use vstd::string::*;

verus! {

/// A service, its group and, where one is given, the organization they belong to.
#[derive(Clone, Debug, Eq, Hash, PartialEq)]
pub struct ServiceGroup {
    pub service: String,
    pub group: String,
    pub organization: Option<String>,
}

/// A service group as three sequences of characters.
pub struct ServiceGroupView {
    pub service: Seq<char>,
    pub group: Seq<char>,
    pub organization: Option<Seq<char>>,
}

impl ServiceGroupView {
    /// The text form: `service.group`, then `@organization` where there is one.
    pub open spec fn canonical(self) -> Seq<char> {
        let head = self.service + seq!['.'] + self.group;
        match self.organization {
            Some(org) => head + seq!['@'] + org,
            None => head,
        }
    }

    /// The names are such that the text form can be read back: the service is not
    /// empty and holds no period, the group is not empty and holds neither a period
    /// nor an at sign, the organization is not empty and holds no line feed.
    pub open spec fn well_formed(self) -> bool {
        &&& self.service.len() > 0
        &&& forall|i: int| 0 <= i < self.service.len() ==> self.service[i] != '.'
        &&& self.group.len() > 0
        &&& forall|i: int|
            0 <= i < self.group.len() ==> self.group[i] != '.' && self.group[i] != '@'
        &&& match self.organization {
            Some(org) => org.len() > 0 && forall|i: int| 0 <= i < org.len() ==> org[i] != '\n',
            None => true,
        }
    }
}

/// The text is the text form of some well-formed service group.
pub open spec fn is_service_group(text: Seq<char>) -> bool {
    exists|v: ServiceGroupView| v.well_formed() && #[trigger] v.canonical() == text
}

impl View for ServiceGroup {
    type V = ServiceGroupView;

    open spec fn view(&self) -> ServiceGroupView {
        ServiceGroupView {
            service: self.service@,
            group: self.group@,
            organization: match self.organization {
                Some(org) => Some(org@),
                None => None,
            },
        }
    }
}

/// Where the parts of a well-formed service group lie in its text form: the
/// service ends at the first period, the group at the first period or at sign
/// after that, and what follows an at sign is the organization.
pub proof fn lemma_text_shape(v: ServiceGroupView)
    requires
        v.well_formed(),
    ensures
        ({
            let s = v.canonical();
            let p = v.service.len() as int;
            let q = p + 1 + v.group.len();
            &&& q <= s.len()
            &&& s[p] == '.'
            &&& forall|i: int| 0 <= i < p ==> s[i] != '.'
            &&& forall|i: int| p < i < q ==> s[i] != '.' && s[i] != '@'
            &&& s.subrange(0, p) == v.service
            &&& s.subrange(p + 1, q) == v.group
            &&& match v.organization {
                Some(org) => q < s.len() && s[q] == '@' && s.subrange(q + 1, s.len() as int)
                    == org,
                None => q == s.len(),
            }
        }),
{
    let s = v.canonical();
    let p = v.service.len() as int;
    let q = p + 1 + v.group.len();
    let head = v.service + seq!['.'] + v.group;
    assert(head.len() == q);
    assert(forall|i: int| 0 <= i < p ==> head[i] == v.service[i]);
    assert(head[p] == '.');
    assert(forall|i: int| p < i < q ==> head[i] == v.group[i - p - 1]);
    match v.organization {
        Some(org) => {
            assert(s == head + seq!['@'] + org);
            assert(forall|i: int| 0 <= i < q ==> s[i] == head[i]);
            assert(s[q] == '@');
            assert(s.subrange(q + 1, s.len() as int) =~= org);
        },
        None => {
            assert(s == head);
        },
    }
    assert(s.subrange(0, p) =~= v.service);
    assert(s.subrange(p + 1, q) =~= v.group);
}

/// Two well-formed service groups with the same text form are the same.
pub proof fn lemma_canonical_injective(a: ServiceGroupView, b: ServiceGroupView)
    requires
        a.well_formed(),
        b.well_formed(),
        a.canonical() == b.canonical(),
    ensures
        a == b,
{
    lemma_text_shape(a);
    lemma_text_shape(b);
    let s = a.canonical();
    let pa = a.service.len() as int;
    let pb = b.service.len() as int;
    assert(pa == pb) by {
        if pa < pb {
            assert(s[pa] == '.');
        } else if pb < pa {
            assert(s[pb] == '.');
        }
    }
    let qa = pa + 1 + a.group.len();
    let qb = pb + 1 + b.group.len();
    assert(qa == qb) by {
        if qa < qb {
            assert(s[qa] == '@');
        } else if qb < qa {
            assert(s[qb] == '@');
        }
    }
    assert(a.service == b.service);
    assert(a.group == b.group);
    assert(a.organization == b.organization);
}

impl ServiceGroup {
    /// A service group of the given names.
    pub fn new(service: &str, group: &str, organization: Option<String>) -> (sg: Self)
        ensures
            sg.service@ == service@,
            sg.group@ == group@,
            sg.organization == organization,
    {
        ServiceGroup { service: service.to_owned(), group: group.to_owned(), organization }
    }

    /// A period and the organization, or nothing where there is no organization.
    pub fn dotted_org_or_empty(&self) -> (text: String)
        ensures
            text@ == match self@.organization {
                Some(org) => seq!['.'] + org,
                None => Seq::<char>::empty(),
            },
    {
        match &self.organization {
            Some(org) => {
                let mut text = String::new();
                text.append(".");
                text.append(org.as_str());
                proof {
                    reveal_strlit(".");
                    assert("."@ =~= seq!['.']);
                    assert(text@ =~= seq!['.'] + org@);
                }
                text
            },
            None => String::new(),
        }
    }

    /// The text form of the service group.
    pub fn as_string(&self) -> (text: String)
        ensures
            text@ == self@.canonical(),
    {
        let mut text = String::new();
        text.append(self.service.as_str());
        text.append(".");
        text.append(self.group.as_str());
        proof {
            reveal_strlit(".");
            reveal_strlit("@");
            assert("."@ =~= seq!['.']);
            assert("@"@ =~= seq!['@']);
            assert(text@ =~= self.service@ + seq!['.'] + self.group@);
        }
        match &self.organization {
            Some(org) => {
                text.append("@");
                text.append(org.as_str());
                assert(text@ =~= self.service@ + seq!['.'] + self.group@ + seq!['@'] + org@);
            },
            None => {},
        }
        text
    }

    /// Reads a service group from its text form. The text is accepted exactly when
    /// it is the text form of a well-formed service group, and that group is the
    /// result; any other text comes back inside the error.
    pub fn from_str(value: &str) -> (r: Result<ServiceGroup, Error>)
        ensures
            match r {
                Ok(sg) => sg@.well_formed() && sg@.canonical() == value@,
                Err(e) => e@ == ErrorView::InvalidServiceGroup(value@) && !is_service_group(
                    value@,
                ),
            },
    {
        let n = value.unicode_len();
        let ghost s = value@;
        let mut dot: usize = n;
        let mut sep: usize = n;
        let mut sep_is_at = false;
        let mut line_feed = false;
        let mut rest = value.chars();
        let mut i: usize = 0;
        proof {
            broadcast use vstd::string::group_string_axioms;

            assert(s.skip(0) =~= s);
        }
        while i < n
            invariant
                s == value@,
                n == s.len(),
                i <= n,
                rest.remaining() == s.skip(i as int),
                dot <= n,
                sep <= n,
                dot < n ==> dot < i && s[dot as int] == '.',
                forall|j: int| 0 <= j < i && j < dot ==> s[j] != '.',
                dot == n ==> sep == n,
                sep < n ==> dot < sep < i && (s[sep as int] == '.' || s[sep as int] == '@')
                    && sep_is_at == (s[sep as int] == '@'),
                forall|j: int| dot < j < i && j < sep ==> s[j] != '.' && s[j] != '@',
                line_feed <==> exists|j: int| sep < j < i && s[j] == '\n',
            decreases n - i,
        {
            let ghost before = rest;
            let next = rest.next();
            proof {
                broadcast use vstd::string::group_string_axioms;

                assert(vstd::string::next_post(&before, &rest, next));
                assert(s.skip(i as int)[0] == s[i as int]);
                assert(s.skip(i as int).drop_first() =~= s.skip(i + 1));
            }
            let c = next.unwrap();
            if dot == n {
                if c == '.' {
                    dot = i;
                }
            } else if sep == n {
                if c == '.' || c == '@' {
                    sep = i;
                    sep_is_at = c == '@';
                }
            } else if c == '\n' {
                line_feed = true;
            }
            i = i + 1;
        }
        let group_end = sep;
        let accepted = dot < n && dot > 0 && group_end > dot + 1 && (sep == n || (sep_is_at && sep
            + 1 < n && !line_feed));
        if !accepted {
            proof {
                assert forall|v: ServiceGroupView| v.well_formed() && #[trigger] v.canonical()
                    == s implies false by {
                    lemma_text_shape(v);
                    let p = v.service.len() as int;
                    let q = p + 1 + v.group.len();
                    assert(s[p] == '.');
                    assert(p == dot);
                    if q < sep {
                        assert(s[q] == '@');
                    }
                    assert(q == sep);
                    if sep < n {
                        let org = v.organization->Some_0;
                        assert(v.organization is Some);
                        assert(org.len() == n - sep - 1);
                        if line_feed {
                            let j = choose|j: int| sep < j < n && s[j] == '\n';
                            assert(org[j - sep - 1] == s.subrange(q + 1, n as int)[j - sep - 1]);
                        }
                    }
                }
            }
            return Err(Error::InvalidServiceGroup(value.to_owned()));
        }
        let service = value.substring_char(0, dot).to_owned();
        let group = value.substring_char(dot + 1, group_end).to_owned();
        let organization = if sep < n {
            Some(value.substring_char(sep + 1, n).to_owned())
        } else {
            None
        };
        let sg = ServiceGroup { service, group, organization };
        proof {
            assert(sg@.canonical() =~= s);
        }
        Ok(sg)
    }
}

impl core::str::FromStr for ServiceGroup {
    type Err = Error;

    /// Reads a service group from its text form, as the method of the same
    /// name on the type does: the text is accepted exactly when it is the
    /// text form of a well-formed service group, and that group is the
    /// result; any other text comes back inside the error.
    fn from_str(value: &str) -> (r: Result<Self, Self::Err>)
        ensures
            match r {
                Ok(sg) => sg@.well_formed() && sg@.canonical() == value@,
                Err(e) => e@ == ErrorView::InvalidServiceGroup(value@) && !is_service_group(
                    value@,
                ),
            },
    {
        ServiceGroup::from_str(value)
    }
}

} // verus!
