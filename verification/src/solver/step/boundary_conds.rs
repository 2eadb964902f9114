//! Load and boundary condition definitions.
use crate::solver::amplitude::{default_amplitude, Amplitude, AmplitudeModel};
use crate::solver::ids::NodeId;
use vstd::prelude::*;

verus! {

/// A nodal quantity with its node, degree of freedom, value literal,
/// amplitude and the step it was defined in: what a load and a boundary
/// condition hold.
pub struct NodalModel {
    pub node_id: NodeId,
    pub dof: usize,
    pub value: Seq<char>,
    pub amplitude: AmplitudeModel,
    pub origin_step: usize,
}

/// The amplitude given, or the default ramp.
pub open spec fn amplitude_or_default(a: Option<Amplitude>) -> AmplitudeModel {
    match a {
        Some(a) => a@,
        None => default_amplitude(),
    }
}

/// A concentrated nodal load (*CLOAD).
#[derive(Debug)]
pub struct Load {
    node_id: NodeId,
    dof: usize,
    value: String,
    amplitude: Amplitude,
    origin_step: usize,
}

impl View for Load {
    type V = NodalModel;

    closed spec fn view(&self) -> NodalModel {
        NodalModel {
            node_id: self.node_id,
            dof: self.dof,
            value: self.value@,
            amplitude: self.amplitude@,
            origin_step: self.origin_step,
        }
    }
}

impl Load {
    /// Creates a new `Load`; without an amplitude the default ramp applies.
    pub fn new(
        node_id: NodeId,
        dof: usize,
        value: String,
        amplitude: Option<Amplitude>,
        origin_step: usize,
    ) -> (res: Self)
        ensures
            res@ == (NodalModel {
                node_id,
                dof,
                value: value@,
                amplitude: amplitude_or_default(amplitude),
                origin_step,
            }),
    {
        let amplitude = match amplitude {
            Some(a) => a,
            None => Amplitude::default(),
        };
        Load { node_id, dof, value, amplitude, origin_step }
    }

    /// Returns the ID of the node the load is applied to.
    pub fn node_id(&self) -> (res: NodeId)
        ensures
            res == self@.node_id,
    {
        self.node_id
    }

    /// Returns the degree of freedom (0, 1, or 2) the load is applied to.
    pub fn dof(&self) -> (res: usize)
        ensures
            res == self@.dof,
    {
        self.dof
    }

    /// The literal of the load's magnitude.
    pub fn magnitude(&self) -> (res: &str)
        ensures
            res@ == self@.value,
    {
        self.value.as_str()
    }

    /// The amplitude that scales the load.
    pub fn amplitude(&self) -> (res: &Amplitude)
        ensures
            res@ == self@.amplitude,
    {
        &self.amplitude
    }

    /// The step in which the load was defined (0 before the first step).
    pub fn origin_step(&self) -> (res: usize)
        ensures
            res == self@.origin_step,
    {
        self.origin_step
    }
}

impl Clone for Load {
    fn clone(&self) -> (res: Self)
        ensures
            res@ == self@,
    {
        Load {
            node_id: self.node_id,
            dof: self.dof,
            value: self.value.clone(),
            amplitude: self.amplitude.clone(),
            origin_step: self.origin_step,
        }
    }
}

/// A displacement boundary condition (*BOUNDARY).
#[derive(Debug)]
pub struct BoundaryCondition {
    node_id: NodeId,
    dof: usize,
    value: String,
    amplitude: Amplitude,
    origin_step: usize,
}

impl View for BoundaryCondition {
    type V = NodalModel;

    closed spec fn view(&self) -> NodalModel {
        NodalModel {
            node_id: self.node_id,
            dof: self.dof,
            value: self.value@,
            amplitude: self.amplitude@,
            origin_step: self.origin_step,
        }
    }
}

impl BoundaryCondition {
    /// Creates a new `BoundaryCondition`; without an amplitude the default ramp applies.
    pub fn new(
        node_id: NodeId,
        dof: usize,
        value: String,
        amplitude: Option<Amplitude>,
        origin_step: usize,
    ) -> (res: Self)
        ensures
            res@ == (NodalModel {
                node_id,
                dof,
                value: value@,
                amplitude: amplitude_or_default(amplitude),
                origin_step,
            }),
    {
        let amplitude = match amplitude {
            Some(a) => a,
            None => Amplitude::default(),
        };
        BoundaryCondition { node_id, dof, value, amplitude, origin_step }
    }

    /// Returns the ID of the node the boundary condition is applied to.
    pub fn node_id(&self) -> (res: NodeId)
        ensures
            res == self@.node_id,
    {
        self.node_id
    }

    /// Returns the degree of freedom (0, 1, or 2) being constrained.
    pub fn dof(&self) -> (res: usize)
        ensures
            res == self@.dof,
    {
        self.dof
    }

    /// The literal of the prescribed value.
    pub fn magnitude(&self) -> (res: &str)
        ensures
            res@ == self@.value,
    {
        self.value.as_str()
    }

    /// The amplitude that scales the prescribed value.
    pub fn amplitude(&self) -> (res: &Amplitude)
        ensures
            res@ == self@.amplitude,
    {
        &self.amplitude
    }

    /// The step in which the condition was defined (0 before the first step).
    pub fn origin_step(&self) -> (res: usize)
        ensures
            res == self@.origin_step,
    {
        self.origin_step
    }
}

impl Clone for BoundaryCondition {
    fn clone(&self) -> (res: Self)
        ensures
            res@ == self@,
    {
        BoundaryCondition {
            node_id: self.node_id,
            dof: self.dof,
            value: self.value.clone(),
            amplitude: self.amplitude.clone(),
            origin_step: self.origin_step,
        }
    }
}

pub open spec fn load_views(v: Seq<Load>) -> Seq<NodalModel> {
    v.map_values(|l: Load| l@)
}

pub open spec fn bc_views(v: Seq<BoundaryCondition>) -> Seq<NodalModel> {
    v.map_values(|b: BoundaryCondition| b@)
}

/// A copy of a list of loads.
pub fn clone_loads(v: &Vec<Load>) -> (res: Vec<Load>)
    ensures
        load_views(res@) == load_views(v@),
{
    let mut res: Vec<Load> = Vec::new();
    let mut k: usize = 0;
    while k < v.len()
        invariant
            k <= v.len(),
            load_views(res@) =~= load_views(v@.take(k as int)),
        decreases v.len() - k,
    {
        res.push(v[k].clone());
        assert(load_views(v@.take(k + 1)) =~= load_views(v@.take(k as int)).push(v@[k as int]@));
        k += 1;
    }
    assert(v@.take(v.len() as int) =~= v@);
    res
}

/// A copy of a list of boundary conditions.
pub fn clone_bcs(v: &Vec<BoundaryCondition>) -> (res: Vec<BoundaryCondition>)
    ensures
        bc_views(res@) == bc_views(v@),
{
    let mut res: Vec<BoundaryCondition> = Vec::new();
    let mut k: usize = 0;
    while k < v.len()
        invariant
            k <= v.len(),
            bc_views(res@) =~= bc_views(v@.take(k as int)),
        decreases v.len() - k,
    {
        res.push(v[k].clone());
        assert(bc_views(v@.take(k + 1)) =~= bc_views(v@.take(k as int)).push(v@[k as int]@));
        k += 1;
    }
    assert(v@.take(v.len() as int) =~= v@);
    res
}

} // verus!
