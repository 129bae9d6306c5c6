//! The fixed, enumerated set of mirrored datasets and their dependency order.
//!
//! The order lists parent datasets before every dataset that references them
//! by foreign key; a full (initial) bulk load that follows it never violates
//! a referential constraint.

use vstd::prelude::*;

verus! {

/// One of the mirrored datasets.  The set is closed: the remote source
/// publishes exactly these, and the mirror never stores anything else.
#[derive(Clone, Copy, PartialEq, Eq, Structural, Debug)]
pub enum Resource {
    Org,
    Campus,
    Fac,
    Net,
    Ix,
    Carrier,
    CarrierFac,
    IxFac,
    IxLan,
    IxPfx,
    NetFac,
    NetIxLan,
}

impl Resource {
    /// The tag under which the remote API and the local store name this
    /// dataset.
    pub open spec fn tag_spec(self) -> Seq<char> {
        match self {
            Resource::Org => "org"@,
            Resource::Campus => "campus"@,
            Resource::Fac => "fac"@,
            Resource::Net => "net"@,
            Resource::Ix => "ix"@,
            Resource::Carrier => "carrier"@,
            Resource::CarrierFac => "carrierfac"@,
            Resource::IxFac => "ixfac"@,
            Resource::IxLan => "ixlan"@,
            Resource::IxPfx => "ixpfx"@,
            Resource::NetFac => "netfac"@,
            Resource::NetIxLan => "netixlan"@,
        }
    }

    pub fn tag(self) -> (s: &'static str)
        ensures
            s@ == self.tag_spec(),
    {
        match self {
            Resource::Org => "org",
            Resource::Campus => "campus",
            Resource::Fac => "fac",
            Resource::Net => "net",
            Resource::Ix => "ix",
            Resource::Carrier => "carrier",
            Resource::CarrierFac => "carrierfac",
            Resource::IxFac => "ixfac",
            Resource::IxLan => "ixlan",
            Resource::IxPfx => "ixpfx",
            Resource::NetFac => "netfac",
            Resource::NetIxLan => "netixlan",
        }
    }

    /// The dataset a tag names, if any.
    pub open spec fn from_tag_spec(s: Seq<char>) -> Option<Resource> {
        if s == "org"@ {
            Some(Resource::Org)
        } else if s == "campus"@ {
            Some(Resource::Campus)
        } else if s == "fac"@ {
            Some(Resource::Fac)
        } else if s == "net"@ {
            Some(Resource::Net)
        } else if s == "ix"@ {
            Some(Resource::Ix)
        } else if s == "carrier"@ {
            Some(Resource::Carrier)
        } else if s == "carrierfac"@ {
            Some(Resource::CarrierFac)
        } else if s == "ixfac"@ {
            Some(Resource::IxFac)
        } else if s == "ixlan"@ {
            Some(Resource::IxLan)
        } else if s == "ixpfx"@ {
            Some(Resource::IxPfx)
        } else if s == "netfac"@ {
            Some(Resource::NetFac)
        } else if s == "netixlan"@ {
            Some(Resource::NetIxLan)
        } else {
            None
        }
    }

    pub fn from_tag(s: &str) -> (r: Option<Resource>)
        ensures
            r == Self::from_tag_spec(s@),
    {
        if str_eq(s, "org") {
            Some(Resource::Org)
        } else if str_eq(s, "campus") {
            Some(Resource::Campus)
        } else if str_eq(s, "fac") {
            Some(Resource::Fac)
        } else if str_eq(s, "net") {
            Some(Resource::Net)
        } else if str_eq(s, "ix") {
            Some(Resource::Ix)
        } else if str_eq(s, "carrier") {
            Some(Resource::Carrier)
        } else if str_eq(s, "carrierfac") {
            Some(Resource::CarrierFac)
        } else if str_eq(s, "ixfac") {
            Some(Resource::IxFac)
        } else if str_eq(s, "ixlan") {
            Some(Resource::IxLan)
        } else if str_eq(s, "ixpfx") {
            Some(Resource::IxPfx)
        } else if str_eq(s, "netfac") {
            Some(Resource::NetFac)
        } else if str_eq(s, "netixlan") {
            Some(Resource::NetIxLan)
        } else {
            None
        }
    }

    /// Position of this dataset in the dependency order.
    pub open spec fn order_index(self) -> int {
        match self {
            Resource::Org => 0,
            Resource::Campus => 1,
            Resource::Fac => 2,
            Resource::Net => 3,
            Resource::Ix => 4,
            Resource::Carrier => 5,
            Resource::CarrierFac => 6,
            Resource::IxFac => 7,
            Resource::IxLan => 8,
            Resource::IxPfx => 9,
            Resource::NetFac => 10,
            Resource::NetIxLan => 11,
        }
    }

    /// The datasets this dataset references by foreign key.  Rows of this
    /// dataset can only be bulk-loaded once all of these are loaded.
    pub fn parents(self) -> (v: Vec<Resource>)
        ensures
            v@ == self.parents_spec(),
    {
        let mut v: Vec<Resource> = Vec::new();
        match self {
            Resource::Org => {},
            Resource::Campus => {
                v.push(Resource::Org);
            },
            Resource::Fac => {
                v.push(Resource::Org);
                v.push(Resource::Campus);
            },
            Resource::Net => {
                v.push(Resource::Org);
            },
            Resource::Ix => {
                v.push(Resource::Org);
            },
            Resource::Carrier => {
                v.push(Resource::Org);
            },
            Resource::CarrierFac => {
                v.push(Resource::Carrier);
                v.push(Resource::Fac);
            },
            Resource::IxFac => {
                v.push(Resource::Ix);
                v.push(Resource::Fac);
            },
            Resource::IxLan => {
                v.push(Resource::Ix);
            },
            Resource::IxPfx => {
                v.push(Resource::IxLan);
            },
            Resource::NetFac => {
                v.push(Resource::Net);
                v.push(Resource::Fac);
            },
            Resource::NetIxLan => {
                v.push(Resource::Net);
                v.push(Resource::IxLan);
            },
        }
        proof {
            assert(v@ =~= self.parents_spec());
        }
        v
    }

    pub open spec fn parents_spec(self) -> Seq<Resource> {
        match self {
            Resource::Org => seq![],
            Resource::Campus => seq![Resource::Org],
            Resource::Fac => seq![Resource::Org, Resource::Campus],
            Resource::Net => seq![Resource::Org],
            Resource::Ix => seq![Resource::Org],
            Resource::Carrier => seq![Resource::Org],
            Resource::CarrierFac => seq![Resource::Carrier, Resource::Fac],
            Resource::IxFac => seq![Resource::Ix, Resource::Fac],
            Resource::IxLan => seq![Resource::Ix],
            Resource::IxPfx => seq![Resource::IxLan],
            Resource::NetFac => seq![Resource::Net, Resource::Fac],
            Resource::NetIxLan => seq![Resource::Net, Resource::IxLan],
        }
    }
}

/// Character-by-character string equality.
pub fn str_eq(a: &str, b: &str) -> (r: bool)
    ensures
        r == (a@ == b@),
{
    let a_len = a.unicode_len();
    let b_len = b.unicode_len();
    if a_len != b_len {
        assert(a@ != b@) by {
            assert(a@.len() != b@.len());
        }
        return false;
    }
    let mut i: usize = 0;
    while i < a_len
        invariant
            i <= a_len,
            a_len == a@.len(),
            b_len == b@.len(),
            a_len == b_len,
            forall|j: int| 0 <= j < i ==> a@[j] == b@[j],
        decreases a_len - i,
    {
        if a.get_char(i) != b.get_char(i) {
            return false;
        }
        i += 1;
    }
    proof {
        assert(a@ =~= b@);
    }
    true
}

/// The full set of datasets, parents before children.
pub open spec fn dependency_order_spec() -> Seq<Resource> {
    seq![
        Resource::Org,
        Resource::Campus,
        Resource::Fac,
        Resource::Net,
        Resource::Ix,
        Resource::Carrier,
        Resource::CarrierFac,
        Resource::IxFac,
        Resource::IxLan,
        Resource::IxPfx,
        Resource::NetFac,
        Resource::NetIxLan,
    ]
}

pub fn dependency_order() -> (v: Vec<Resource>)
    ensures
        v@ == dependency_order_spec(),
{
    let mut v: Vec<Resource> = Vec::new();
    v.push(Resource::Org);
    v.push(Resource::Campus);
    v.push(Resource::Fac);
    v.push(Resource::Net);
    v.push(Resource::Ix);
    v.push(Resource::Carrier);
    v.push(Resource::CarrierFac);
    v.push(Resource::IxFac);
    v.push(Resource::IxLan);
    v.push(Resource::IxPfx);
    v.push(Resource::NetFac);
    v.push(Resource::NetIxLan);
    proof {
        assert(v@ =~= dependency_order_spec());
    }
    v
}

/// Every dataset appears in the dependency order, at its `order_index`.
pub proof fn lemma_order_covers_all()
    ensures
        dependency_order_spec().len() == 12,
        forall|r: Resource|
            0 <= #[trigger] r.order_index() < 12 && dependency_order_spec()[r.order_index()] == r,
{
    assert forall|r: Resource|
        0 <= #[trigger] r.order_index() < 12 && dependency_order_spec()[r.order_index()] == r by {
        match r {
            Resource::Org => assert(dependency_order_spec()[0] == Resource::Org),
            Resource::Campus => assert(dependency_order_spec()[1] == Resource::Campus),
            Resource::Fac => assert(dependency_order_spec()[2] == Resource::Fac),
            Resource::Net => assert(dependency_order_spec()[3] == Resource::Net),
            Resource::Ix => assert(dependency_order_spec()[4] == Resource::Ix),
            Resource::Carrier => assert(dependency_order_spec()[5] == Resource::Carrier),
            Resource::CarrierFac => assert(dependency_order_spec()[6] == Resource::CarrierFac),
            Resource::IxFac => assert(dependency_order_spec()[7] == Resource::IxFac),
            Resource::IxLan => assert(dependency_order_spec()[8] == Resource::IxLan),
            Resource::IxPfx => assert(dependency_order_spec()[9] == Resource::IxPfx),
            Resource::NetFac => assert(dependency_order_spec()[10] == Resource::NetFac),
            Resource::NetIxLan => assert(dependency_order_spec()[11] == Resource::NetIxLan),
        }
    }
}

/// Dependency order is foreign-key safe: every dataset comes strictly after
/// each dataset it references, so a full bulk load that inserts datasets in
/// this order never inserts a child row before its parent dataset is loaded.
pub proof fn lemma_order_parents_first()
    ensures
        forall|r: Resource, p: Resource|
            #[trigger] r.parents_spec().contains(p) ==> p.order_index() < r.order_index(),
{
    assert forall|r: Resource, p: Resource| #[trigger]
        r.parents_spec().contains(p) implies p.order_index() < r.order_index() by {
        let ps = r.parents_spec();
        let i = choose|i: int| 0 <= i < ps.len() && ps[i] == p;
        assert(ps[i] == p);
    }
}

} // verus!
