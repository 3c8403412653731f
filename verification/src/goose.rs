//! The parts of scenarios and transactions that scheduling reads.

use vstd::prelude::*;

verus! {

/// The HTTP method of a request.
#[derive(Clone, Copy, Debug, PartialEq, Eq, Structural)]
pub enum GooseMethod {
    Delete,
    Get,
    Head,
    Patch,
    Post,
    Put,
}

/// The name of an HTTP method, in capitals.
pub open spec fn method_text(m: GooseMethod) -> Seq<char> {
    match m {
        GooseMethod::Delete => "DELETE"@,
        GooseMethod::Get => "GET"@,
        GooseMethod::Head => "HEAD"@,
        GooseMethod::Patch => "PATCH"@,
        GooseMethod::Post => "POST"@,
        GooseMethod::Put => "PUT"@,
    }
}

impl GooseMethod {
    /// The name of the method, in capitals, as requests and errors are labelled.
    pub fn text(&self) -> (t: &'static str)
        ensures
            t@ == method_text(*self),
    {
        match self {
            GooseMethod::Delete => "DELETE",
            GooseMethod::Get => "GET",
            GooseMethod::Head => "HEAD",
            GooseMethod::Patch => "PATCH",
            GooseMethod::Post => "POST",
            GooseMethod::Put => "PUT",
        }
    }
}

/// A transaction of a scenario, as far as scheduling is concerned.
#[derive(Debug)]
pub struct Transaction {
    /// An index into the scenario's transactions, identifying this transaction.
    pub transactions_index: usize,
    /// The optional name of the transaction.
    pub name: String,
    /// How often this transaction runs relative to the others.
    pub weight: usize,
    /// The order in which this transaction runs; zero means unsequenced.
    pub sequence: usize,
    /// Runs once when the user starts.
    pub on_start: bool,
    /// Runs once when the user stops.
    pub on_stop: bool,
}

impl Clone for Transaction {
    fn clone(&self) -> (t: Self)
        ensures
            t.transactions_index == self.transactions_index,
            t.name@ == self.name@,
            t.weight == self.weight,
            t.sequence == self.sequence,
            t.on_start == self.on_start,
            t.on_stop == self.on_stop,
    {
        Transaction {
            transactions_index: self.transactions_index,
            name: self.name.clone(),
            weight: self.weight,
            sequence: self.sequence,
            on_start: self.on_start,
            on_stop: self.on_stop,
        }
    }
}

/// A scenario: a weighted group of transactions that a user runs.
#[derive(Debug)]
pub struct Scenario {
    /// The name of the scenario.
    pub name: String,
    /// A machine-friendly form of the name.
    pub machine_name: String,
    /// An index into the load test's scenarios, identifying this scenario.
    pub scenarios_index: usize,
    /// How often users are assigned this scenario relative to the others.
    pub weight: usize,
    /// The host this scenario's users load test, when it sets one of its own.
    pub host: Option<String>,
    /// The transactions of this scenario.
    pub transactions: Vec<Transaction>,
}

} // verus!
