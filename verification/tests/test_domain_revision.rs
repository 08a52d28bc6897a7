use hidshift::domain::revision::{ChangeSet, Revisions};

#[test]
fn only_changed_domains_advance() {
    let mut revisions = Revisions::default();
    revisions.changed(ChangeSet::summary() | ChangeSet::inputs());
    assert_eq!(revisions.summary.0, 1);
    assert_eq!(revisions.inputs.0, 1);
    assert_eq!(revisions.destinations.0, 0);
}
