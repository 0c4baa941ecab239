use ann_dataset::DatasetError;
use ann_dataset::Metric;

#[test]
fn test_from_str() {
    assert_eq!(Metric::Cosine, Metric::from_str("cosine").unwrap());
    assert_eq!(Metric::Cosine, Metric::from_str("Cosine").unwrap());
    assert_eq!(
        Metric::InnerProduct,
        Metric::from_str("inner-product").unwrap()
    );
    assert_eq!(
        Metric::InnerProduct,
        Metric::from_str("InnerProduct").unwrap()
    );
    assert_eq!(
        Metric::InnerProduct,
        Metric::from_str("dot-product").unwrap()
    );
    assert_eq!(Metric::Euclidean, Metric::from_str("euclidean").unwrap());
    assert_eq!(Metric::Euclidean, Metric::from_str("Euclidean").unwrap());
    assert!(Metric::from_str("foo").is_err());
}

#[test]
fn from_str_ignores_case() {
    assert_eq!(Metric::Hamming, Metric::from_str("HAMMING").unwrap());
    assert_eq!(Metric::Hamming, Metric::from_str("hamming").unwrap());
    assert_eq!(Metric::Cosine, Metric::from_str("cOsInE").unwrap());
    assert_eq!(
        Metric::InnerProduct,
        Metric::from_str("Dot-Product").unwrap()
    );
    assert_eq!(
        Metric::InnerProduct,
        Metric::from_str("INNERPRODUCT").unwrap()
    );
}

#[test]
fn from_str_rejects_other_text() {
    assert_eq!(Err(DatasetError::UnknownMetric), Metric::from_str(""));
    assert_eq!(Err(DatasetError::UnknownMetric), Metric::from_str("cosine "));
    assert_eq!(
        Err(DatasetError::UnknownMetric),
        Metric::from_str("inner_product")
    );
    assert_eq!(
        Err(DatasetError::UnknownMetric),
        Metric::from_str("a-name-that-is-longer-than-any-metric")
    );
    assert_eq!(Err(DatasetError::UnknownMetric), Metric::from_str("cosin\u{e9}"));
}

#[test]
fn to_string_names_each_metric() {
    assert_eq!("Hamming", Metric::Hamming.to_string());
    assert_eq!("Euclidean", Metric::Euclidean.to_string());
    assert_eq!("Cosine", Metric::Cosine.to_string());
    assert_eq!("InnerProduct", Metric::InnerProduct.to_string());
}

#[test]
fn shown_name_reads_back() {
    for metric in [
        Metric::Hamming,
        Metric::Euclidean,
        Metric::Cosine,
        Metric::InnerProduct,
    ] {
        assert_eq!(Ok(metric), Metric::from_str(&metric.to_string()));
    }
}
