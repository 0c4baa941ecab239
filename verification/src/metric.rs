//! Metrics that characterize an ANN search, and their textual names.
use vstd::prelude::*;

use crate::error::DatasetError;

verus! {

/// Collection of metrics and distance functions that characterize an ANN search.
#[derive(PartialEq, Eq, Structural, Hash, Debug, Clone, Copy)]
pub enum Metric {
    Hamming,
    Euclidean,
    Cosine,
    InnerProduct,
}

/// The lower-case form of an ASCII upper-case letter; any other character is unchanged.
pub open spec fn lower_char(c: char) -> char {
    if 'A' <= c && c <= 'Z' {
        ((c as u8) + 32) as char
    } else {
        c
    }
}

/// A name with every ASCII upper-case letter replaced by its lower-case form.
pub open spec fn lower_name(name: Seq<char>) -> Seq<char> {
    name.map_values(|c: char| lower_char(c))
}

pub open spec fn hamming_name() -> Seq<char> {
    seq!['h', 'a', 'm', 'm', 'i', 'n', 'g']
}

pub open spec fn euclidean_name() -> Seq<char> {
    seq!['e', 'u', 'c', 'l', 'i', 'd', 'e', 'a', 'n']
}

pub open spec fn cosine_name() -> Seq<char> {
    seq!['c', 'o', 's', 'i', 'n', 'e']
}

pub open spec fn inner_product_name() -> Seq<char> {
    seq!['i', 'n', 'n', 'e', 'r', 'p', 'r', 'o', 'd', 'u', 'c', 't']
}

pub open spec fn inner_product_dashed_name() -> Seq<char> {
    seq!['i', 'n', 'n', 'e', 'r', '-', 'p', 'r', 'o', 'd', 'u', 'c', 't']
}

pub open spec fn dot_product_name() -> Seq<char> {
    seq!['d', 'o', 't', '-', 'p', 'r', 'o', 'd', 'u', 'c', 't']
}

/// The metric that a name stands for, whatever the case of its letters.
pub open spec fn metric_of_name(name: Seq<char>) -> Option<Metric> {
    let lower = lower_name(name);
    if lower == hamming_name() {
        Some(Metric::Hamming)
    } else if lower == euclidean_name() {
        Some(Metric::Euclidean)
    } else if lower == cosine_name() {
        Some(Metric::Cosine)
    } else if lower == inner_product_name() || lower == inner_product_dashed_name() || lower
        == dot_product_name() {
        Some(Metric::InnerProduct)
    } else {
        None
    }
}

/// The name under which a metric is shown and stored.
pub open spec fn display_name(metric: Metric) -> Seq<char> {
    match metric {
        Metric::Hamming => seq!['H', 'a', 'm', 'm', 'i', 'n', 'g'],
        Metric::Euclidean => seq!['E', 'u', 'c', 'l', 'i', 'd', 'e', 'a', 'n'],
        Metric::Cosine => seq!['C', 'o', 's', 'i', 'n', 'e'],
        Metric::InnerProduct => seq!['I', 'n', 'n', 'e', 'r', 'P', 'r', 'o', 'd', 'u', 'c', 't'],
    }
}

/// The length of the longest name that stands for a metric.
pub const MAX_NAME_LEN: usize = 13;

fn to_lower(c: char) -> (r: char)
    ensures
        r == lower_char(c),
{
    if 'A' <= c && c <= 'Z' {
        ((c as u8) + 32) as char
    } else {
        c
    }
}

/// Whether the characters are exactly those of `name`.
fn is_name(chars: &Vec<char>, name: &str) -> (r: bool)
    ensures
        r == (chars@ == name@),
{
    let n: usize = name.unicode_len();
    if chars.len() != n {
        return false;
    }
    let mut i: usize = 0;
    while i < n
        invariant
            n == name@.len(),
            chars@.len() == n,
            i <= n,
            forall|j: int| 0 <= j < i ==> chars@[j] == name@[j],
        decreases n - i,
    {
        if chars[i] != name.get_char(i) {
            return false;
        }
        i += 1;
    }
    assert(chars@ =~= name@);
    true
}

impl Metric {
    /// The name of the metric, as it is shown and stored.
    pub fn to_string(&self) -> (r: String)
        ensures
            r@ == display_name(*self),
    {
        proof {
            reveal_strlit("Hamming");
            reveal_strlit("Euclidean");
            reveal_strlit("Cosine");
            reveal_strlit("InnerProduct");
            assert("Hamming"@ =~= display_name(Metric::Hamming));
            assert("Euclidean"@ =~= display_name(Metric::Euclidean));
            assert("Cosine"@ =~= display_name(Metric::Cosine));
            assert("InnerProduct"@ =~= display_name(Metric::InnerProduct));
        }
        match self {
            Metric::Hamming => "Hamming".to_owned(),
            Metric::Euclidean => "Euclidean".to_owned(),
            Metric::Cosine => "Cosine".to_owned(),
            Metric::InnerProduct => "InnerProduct".to_owned(),
        }
    }

    /// Reads a metric from its name.
    ///
    /// The case of the letters does not matter, and the inner product also
    /// answers to `inner-product` and `dot-product`. Any other text is
    /// rejected.
    pub fn from_str(s: &str) -> (r: Result<Metric, DatasetError>)
        ensures
            r == match metric_of_name(s@) {
                Some(metric) => Ok::<Metric, DatasetError>(metric),
                None => Err::<Metric, DatasetError>(DatasetError::UnknownMetric),
            },
    {
        let n: usize = s.unicode_len();
        if n > MAX_NAME_LEN {
            assert(lower_name(s@).len() > MAX_NAME_LEN);
            return Err(DatasetError::UnknownMetric);
        }
        let mut lower: Vec<char> = Vec::new();
        let mut i: usize = 0;
        while i < n
            invariant
                n == s@.len(),
                i <= n,
                lower@.len() == i,
                forall|j: int| 0 <= j < i ==> lower@[j] == lower_char(s@[j]),
            decreases n - i,
        {
            lower.push(to_lower(s.get_char(i)));
            i += 1;
        }
        assert(lower@ =~= lower_name(s@));
        proof {
            reveal_strlit("hamming");
            reveal_strlit("euclidean");
            reveal_strlit("cosine");
            reveal_strlit("innerproduct");
            reveal_strlit("inner-product");
            reveal_strlit("dot-product");
            assert("hamming"@ =~= hamming_name());
            assert("euclidean"@ =~= euclidean_name());
            assert("cosine"@ =~= cosine_name());
            assert("innerproduct"@ =~= inner_product_name());
            assert("inner-product"@ =~= inner_product_dashed_name());
            assert("dot-product"@ =~= dot_product_name());
        }
        if is_name(&lower, "hamming") {
            Ok(Metric::Hamming)
        } else if is_name(&lower, "euclidean") {
            Ok(Metric::Euclidean)
        } else if is_name(&lower, "cosine") {
            Ok(Metric::Cosine)
        } else if is_name(&lower, "innerproduct") || is_name(&lower, "inner-product") || is_name(
            &lower,
            "dot-product",
        ) {
            Ok(Metric::InnerProduct)
        } else {
            Err(DatasetError::UnknownMetric)
        }
    }
}

/// Reading the name under which a metric is shown gives the metric back.
pub proof fn lemma_display_name_round_trip(metric: Metric)
    ensures
        metric_of_name(display_name(metric)) == Some(metric),
{
    let lower = lower_name(display_name(metric));
    match metric {
        Metric::Hamming => {
            assert(lower =~= hamming_name());
        },
        Metric::Euclidean => {
            assert(lower =~= euclidean_name());
            assert(lower.len() != hamming_name().len());
        },
        Metric::Cosine => {
            assert(lower =~= cosine_name());
            assert(lower.len() != hamming_name().len());
            assert(lower.len() != euclidean_name().len());
        },
        Metric::InnerProduct => {
            assert(lower =~= inner_product_name());
            assert(lower.len() != hamming_name().len());
            assert(lower.len() != euclidean_name().len());
            assert(lower.len() != cosine_name().len());
        },
    }
}

} // verus!
