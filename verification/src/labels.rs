//! The label sets under which a metrics endpoint counts requests: one
//! counter for each HTTP method and load balancer.

use vstd::prelude::*;
use vstd::string::StringExecFns;

verus! {

/// The HTTP methods that requests are counted by.
#[derive(Clone, Copy, Debug, Hash, PartialEq, Eq, Structural)]
pub enum Method {
    GET,
    POST,
}

/// The labels of one request counter.
#[derive(Clone, Debug, Hash, PartialEq, Eq)]
pub struct Labels {
    pub method: Method,
    pub lb_id: String,
}

/// The labels of a counter as a value.
pub struct LabelsView {
    pub method: Method,
    pub lb_id: Seq<char>,
}

impl View for Labels {
    type V = LabelsView;

    open spec fn view(&self) -> LabelsView {
        LabelsView { method: self.method, lb_id: self.lb_id@ }
    }
}

/// The value that stands for a method under the `method` label.
pub open spec fn method_name(method: Method) -> Seq<char> {
    match method {
        Method::GET => "GET"@,
        Method::POST => "POST"@,
    }
}

/// The bound below which a simulated request draws what it adds to the
/// counter of a method.
pub open spec fn growth_bound(method: Method) -> u64 {
    match method {
        Method::GET => 10,
        Method::POST => 5,
    }
}

impl Method {
    /// The value that stands for the method under the `method` label.
    pub fn as_str(&self) -> (name: &'static str)
        ensures
            name@ == method_name(*self),
    {
        match self {
            Method::GET => "GET",
            Method::POST => "POST",
        }
    }

    /// The bound below which a simulated request draws the growth of the
    /// method's counter.
    pub fn fluctuation_bound(&self) -> (bound: u64)
        ensures
            bound == growth_bound(*self),
            bound > 0,
    {
        match self {
            Method::GET => 10,
            Method::POST => 5,
        }
    }
}

impl Labels {
    /// The label sets of one load balancer, one for each method, `GET`
    /// first.
    pub fn of_load_balancer(lb_id: &str) -> (sets: Vec<Labels>)
        ensures
            sets@.len() == 2,
            sets@[0]@ == (LabelsView { method: Method::GET, lb_id: lb_id@ }),
            sets@[1]@ == (LabelsView { method: Method::POST, lb_id: lb_id@ }),
    {
        let mut sets: Vec<Labels> = Vec::new();
        sets.push(Labels { method: Method::GET, lb_id: String::from_str(lb_id) });
        sets.push(Labels { method: Method::POST, lb_id: String::from_str(lb_id) });
        sets
    }
}

} // verus!
