//! Plain-value models of the cluster objects the capture logic reads: a
//! pod's identity, owner references and container statuses.

use vstd::prelude::*;

use crate::lifecycle::ContainerStatus;

verus! {

/// Mathematical view of an [`OwnerRef`].
pub struct OwnerRefView {
    pub api_version: Seq<char>,
    pub kind: Seq<char>,
    pub name: Seq<char>,
    pub uid: Seq<char>,
}

/// A reference to a controlling object: API version, kind, object name and
/// unique id, as an object reports them.
#[derive(Debug, PartialEq, Eq)]
pub struct OwnerRef {
    pub api_version: String,
    pub kind: String,
    pub name: String,
    pub uid: String,
}

impl View for OwnerRef {
    type V = OwnerRefView;

    open spec fn view(&self) -> OwnerRefView {
        OwnerRefView {
            api_version: self.api_version@,
            kind: self.kind@,
            name: self.name@,
            uid: self.uid@,
        }
    }
}

impl DeepView for OwnerRef {
    type V = OwnerRefView;

    open spec fn deep_view(&self) -> OwnerRefView {
        self.view()
    }
}

impl Clone for OwnerRef {
    fn clone(&self) -> (r: Self)
        ensures
            r@ == self@,
    {
        OwnerRef {
            api_version: self.api_version.clone(),
            kind: self.kind.clone(),
            name: self.name.clone(),
            uid: self.uid.clone(),
        }
    }
}

/// Copy an owner chain element by element.
pub fn clone_chain(v: &Vec<OwnerRef>) -> (r: Vec<OwnerRef>)
    ensures
        r.deep_view() == v.deep_view(),
{
    let mut r: Vec<OwnerRef> = Vec::new();
    let mut i: usize = 0;
    while i < v.len()
        invariant
            i <= v.len(),
            r.deep_view() =~= v.deep_view().take(i as int),
        decreases v.len() - i,
    {
        let ghost pre = r.deep_view();
        r.push(v[i].clone());
        proof {
            assert(r.deep_view() =~= pre.push(v.deep_view()[i as int]));
            assert(v.deep_view().take(i + 1 as int) =~= v.deep_view().take(i as int).push(
                v.deep_view()[i as int],
            ));
        }
        i = i + 1;
    }
    proof {
        assert(v.deep_view().take(v.deep_view().len() as int) =~= v.deep_view());
    }
    r
}

/// The fully qualified identifier `namespace/name`.
pub open spec fn ns_name_of(namespace: Seq<char>, name: Seq<char>) -> Seq<char> {
    namespace + seq!['/'] + name
}

/// Build the `namespace/name` identifier string.
pub fn namespaced_name_of(namespace: &String, name: &String) -> (r: String)
    ensures
        r@ == ns_name_of(namespace@, name@),
{
    let mut s = namespace.clone();
    s.append("/");
    s.append(name.as_str());
    proof {
        reveal_strlit("/");
        assert(s@ =~= ns_name_of(namespace@, name@));
    }
    s
}

/// Mathematical view of a [`PodRecord`].
pub struct PodRecordView {
    pub namespace: Seq<char>,
    pub name: Seq<char>,
    pub owner_refs: Seq<OwnerRefView>,
    pub containers: Seq<ContainerStatus>,
}

/// What the capture logic reads off a pod object: its identity, its owner
/// references (nearest first, as reported) and its container statuses.
#[derive(Debug)]
pub struct PodRecord {
    pub namespace: String,
    pub name: String,
    pub owner_refs: Vec<OwnerRef>,
    pub containers: Vec<ContainerStatus>,
}

impl View for PodRecord {
    type V = PodRecordView;

    open spec fn view(&self) -> PodRecordView {
        PodRecordView {
            namespace: self.namespace@,
            name: self.name@,
            owner_refs: self.owner_refs.deep_view(),
            containers: self.containers@,
        }
    }
}

impl DeepView for PodRecord {
    type V = PodRecordView;

    open spec fn deep_view(&self) -> PodRecordView {
        self.view()
    }
}

impl PodRecord {
    /// The pod's fully qualified identifier.
    pub open spec fn spec_ns_name(&self) -> Seq<char> {
        ns_name_of(self.namespace@, self.name@)
    }

    /// Build the `namespace/name` identifier string.
    pub fn namespaced_name(&self) -> (r: String)
        ensures
            r@ == self.spec_ns_name(),
    {
        namespaced_name_of(&self.namespace, &self.name)
    }
}

} // verus!
