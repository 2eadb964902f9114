//! Time-dependent amplitude definitions.
//!
//! Amplitudes scale loads or boundary conditions over time, either linearly
//! (ramp) or via a user-defined time series. Numbers are kept as the literals
//! of the input deck.
use crate::solver::parser::string_views;
use vstd::prelude::*;

verus! {

/// A collection of time-value pairs used for interpolation: the time
/// literals and the value literals.
#[derive(Debug)]
pub struct TimeSeries(pub Vec<String>, pub Vec<String>);

/// Defines how a value (like a load) scales over simulation time.
#[derive(Debug)]
pub struct Amplitude {
    /// If true, the time-values are relative to total simulation time;
    /// otherwise, they are relative to the start of the current step.
    pub total_time: bool,
    /// X-axis shift (time offset) for the amplitude data.
    pub shift_x: String,
    /// Y-axis shift (value offset) for the amplitude data.
    pub shift_y: String,
    /// Optional piecewise linear time-value pairs.
    pub data: Option<TimeSeries>,
}

/// An amplitude as plain values.
pub struct AmplitudeModel {
    pub total_time: bool,
    pub shift_x: Seq<char>,
    pub shift_y: Seq<char>,
    pub data: Option<(Seq<Seq<char>>, Seq<Seq<char>>)>,
}

impl View for Amplitude {
    type V = AmplitudeModel;

    open spec fn view(&self) -> AmplitudeModel {
        AmplitudeModel {
            total_time: self.total_time,
            shift_x: self.shift_x@,
            shift_y: self.shift_y@,
            data: match &self.data {
                Some(ts) => Some((string_views(ts.0@), string_views(ts.1@))),
                None => None,
            },
        }
    }
}

/// The default amplitude: a ramp, no shifts (`0`), no data.
pub open spec fn default_amplitude() -> AmplitudeModel {
    AmplitudeModel { total_time: false, shift_x: "0"@, shift_y: "0"@, data: None }
}

/// A copy of a vector of strings.
pub fn clone_strings(v: &Vec<String>) -> (res: Vec<String>)
    ensures
        string_views(res@) == string_views(v@),
{
    let mut res: Vec<String> = Vec::new();
    let mut k: usize = 0;
    while k < v.len()
        invariant
            k <= v.len(),
            string_views(res@) =~= string_views(v@.take(k as int)),
        decreases v.len() - k,
    {
        res.push(v[k].clone());
        assert(string_views(v@.take(k + 1)) =~= string_views(v@.take(k as int)).push(v@[k as int]@));
        k += 1;
    }
    assert(v@.take(v.len() as int) =~= v@);
    res
}

impl Clone for TimeSeries {
    fn clone(&self) -> (res: Self)
        ensures
            string_views(res.0@) == string_views(self.0@),
            string_views(res.1@) == string_views(self.1@),
    {
        TimeSeries(clone_strings(&self.0), clone_strings(&self.1))
    }
}

impl Clone for Amplitude {
    fn clone(&self) -> (res: Self)
        ensures
            res@ == self@,
    {
        Amplitude {
            total_time: self.total_time,
            shift_x: self.shift_x.clone(),
            shift_y: self.shift_y.clone(),
            data: match &self.data {
                Some(ts) => Some(ts.clone()),
                None => None,
            },
        }
    }
}

impl Default for Amplitude {
    fn default() -> (res: Self)
        ensures
            res@ == default_amplitude(),
    {
        Amplitude {
            total_time: false,
            shift_x: String::from_str("0"),
            shift_y: String::from_str("0"),
            data: None,
        }
    }
}

} // verus!
