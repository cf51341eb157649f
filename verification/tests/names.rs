use bastionai::names::{DatasetField, MetricKind};

#[test]
fn metric_names() {
    assert_eq!(MetricKind::try_from_name("accuracy"), Some(MetricKind::Accuracy));
    assert_eq!(MetricKind::try_from_name("l2"), Some(MetricKind::L2));
    assert_eq!(MetricKind::try_from_name("L2"), None);
    assert_eq!(MetricKind::try_from_name("accuracy "), None);
    assert_eq!(MetricKind::try_from_name(""), None);
}

#[test]
fn dataset_field_names() {
    assert_eq!(DatasetField::try_from_name("samples"), Some(DatasetField::Samples));
    assert_eq!(DatasetField::try_from_name("labels"), Some(DatasetField::Labels));
    assert_eq!(DatasetField::try_from_name("label"), None);
    assert_eq!(DatasetField::try_from_name("sämples"), None);
}
