//! The names by which requests and serialized datasets select what they mean:
//! the metric of a training or testing configuration, and the tensors of a
//! serialized dataset.

use vstd::prelude::*;
use vstd::string::StrSliceExecFns;

verus! {

/// Whether the two texts are the same.
fn same_text(a: &str, b: &str) -> (r: bool)
    ensures
        r == (a@ == b@),
{
    let n = a.unicode_len();
    let m = b.unicode_len();
    if n != m {
        return false;
    }
    let mut i: usize = 0;
    while i < n
        invariant
            n == a@.len(),
            m == b@.len(),
            n == m,
            i <= n,
            forall|j: int| 0 <= j < i ==> a@[j] == b@[j],
        decreases n - i,
    {
        if a.get_char(i) != b.get_char(i) {
            return false;
        }
        i = i + 1;
    }
    assert(a@ =~= b@);
    true
}

/// The metric that a configuration names.
#[derive(PartialEq, Eq, Structural, Debug, Clone, Copy)]
pub enum MetricKind {
    /// The share of samples whose predicted class is the label.
    Accuracy,
    /// The squared error between output and label.
    L2,
}

impl MetricKind {
    /// The metric named `name`: "accuracy" or "l2"; `None` for any other name.
    pub fn try_from_name(name: &str) -> (r: Option<MetricKind>)
        ensures
            r == (if name@ == "accuracy"@ {
                Some(MetricKind::Accuracy)
            } else if name@ == "l2"@ {
                Some(MetricKind::L2)
            } else {
                None
            }),
    {
        if same_text(name, "accuracy") {
            Some(MetricKind::Accuracy)
        } else if same_text(name, "l2") {
            Some(MetricKind::L2)
        } else {
            None
        }
    }
}

/// The tensors that a serialized dataset holds, by name.
#[derive(PartialEq, Eq, Structural, Debug, Clone, Copy)]
pub enum DatasetField {
    /// The inputs, stacked along the first dimension.
    Samples,
    /// The expected outputs, one per sample.
    Labels,
}

impl DatasetField {
    /// The field named `name`: "samples" or "labels"; `None` for any other name.
    pub fn try_from_name(name: &str) -> (r: Option<DatasetField>)
        ensures
            r == (if name@ == "samples"@ {
                Some(DatasetField::Samples)
            } else if name@ == "labels"@ {
                Some(DatasetField::Labels)
            } else {
                None
            }),
    {
        if same_text(name, "samples") {
            Some(DatasetField::Samples)
        } else if same_text(name, "labels") {
            Some(DatasetField::Labels)
        } else {
            None
        }
    }
}

} // verus!
