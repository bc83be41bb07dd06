use fat32::cluster::Cluster;
use fat32::fat::{FatEntry, Status};

#[test]
fn test_fat_entry_status() {
    assert_eq!(FatEntry(0x0000_0000).status(), Status::Free);
    assert_eq!(FatEntry(0x0FFF_FFFF).status(), Status::Eoc(0x0FFF_FFFF));
    assert_eq!(FatEntry(0x0000_0005).status(), Status::Data(Cluster::from(5)));
    assert_eq!(FatEntry(0x0FFF_FFF7).status(), Status::Bad);
}

#[test]
fn test_fat_entry_boundaries() {
    assert_eq!(FatEntry(0x0000_0001).status(), Status::Reserved);
    assert_eq!(FatEntry(0x0000_0002).status(), Status::Data(Cluster::from(2)));
    assert_eq!(FatEntry(0x0FFF_FFEF).status(), Status::Data(Cluster::from(0x0FFF_FFEF)));
    assert_eq!(FatEntry(0x0FFF_FFF0).status(), Status::Data(Cluster::from(0x0FFF_FFF0)));
    assert_eq!(FatEntry(0x0FFF_FFF5).status(), Status::Data(Cluster::from(0x0FFF_FFF5)));
    assert_eq!(FatEntry(0x0FFF_FFF6).status(), Status::Reserved);
    assert_eq!(FatEntry(0x0FFF_FFF8).status(), Status::Eoc(0x0FFF_FFF8));
}

#[test]
fn test_fat_entry_ignores_top_bits() {
    assert_eq!(FatEntry(0xF000_0000).status(), Status::Free);
    assert_eq!(FatEntry(0xA000_0005).status(), Status::Data(Cluster::from(5)));
    assert_eq!(FatEntry(0xFFFF_FFFF).status(), Status::Eoc(0x0FFF_FFFF));
    assert_eq!(FatEntry(0x1FFF_FFF7).status(), Status::Bad);
}

#[test]
fn test_cluster() {
    assert_eq!(Cluster::from(5).clus_num(), 5);
    assert_eq!(Cluster::from(0xF000_0005).clus_num(), 5);
    assert_eq!(Cluster::from(0xFFFF_FFFF).clus_num(), 0x0FFF_FFFF);
    assert_eq!(Cluster::from(0xF000_0005), Cluster::from(5));
    assert_eq!(Cluster::from(2).index(), 0);
    assert_eq!(Cluster::from(7).index(), 5);
    assert!(Cluster::from(2).is_valid());
    assert!(!Cluster::from(1).is_valid());
    assert!(!Cluster::from(0).is_valid());
    assert!(!Cluster::from(0xF000_0001).is_valid());
}

#[test]
fn test_clusters_are_ordered_by_number() {
    assert!(Cluster::from(2) < Cluster::from(3));
    assert!(Cluster::from(0x0FFF_FFFF) > Cluster::from(7));
    assert!(Cluster::from(0xF000_0002) < Cluster::from(3));
    assert!(Cluster::from(5) <= Cluster::from(5));
    assert_eq!(Cluster::from(9).max(Cluster::from(4)), Cluster::from(9));
    let mut clusters = vec![Cluster::from(8), Cluster::from(2), Cluster::from(5)];
    clusters.sort();
    assert_eq!(clusters, vec![Cluster::from(2), Cluster::from(5), Cluster::from(8)]);
}
