use atg::relations::{exon_cds_overlap, intersect, relation, subtract, union, GenomicRelation};

#[test]
fn test_no_overlap() {
    assert_eq!(intersect((&3, &5), (&1, &1)), None);
    assert_eq!(intersect((&3, &5), (&1, &2)), None);
    assert_eq!(intersect((&3, &5), (&2, &2)), None);
    assert_eq!(intersect((&3, &5), (&6, &6)), None);
    assert_eq!(intersect((&3, &5), (&6, &7)), None);
}

#[test]
fn test_a_fully_in_b() {
    assert_eq!(intersect((&3, &5), (&1, &5)), Some((3, 5)));
    assert_eq!(intersect((&3, &5), (&1, &6)), Some((3, 5)));
    assert_eq!(intersect((&3, &5), (&3, &5)), Some((3, 5)));
    assert_eq!(intersect((&3, &5), (&3, &6)), Some((3, 5)));
}

#[test]
fn test_b_fully_in_a() {
    assert_eq!(intersect((&1, &5), (&3, &5)), Some((3, 5)));
    assert_eq!(intersect((&1, &6), (&3, &5)), Some((3, 5)));
    assert_eq!(intersect((&3, &5), (&3, &5)), Some((3, 5)));
    assert_eq!(intersect((&3, &6), (&3, &5)), Some((3, 5)));
}

#[test]
fn test_left_overlap() {
    assert_eq!(intersect((&3, &5), (&1, &3)), Some((3, 3)));
    assert_eq!(intersect((&3, &5), (&1, &4)), Some((3, 4)));
}

#[test]
fn test_right_overlap() {
    assert_eq!(intersect((&3, &5), (&4, &6)), Some((4, 5)));
    assert_eq!(intersect((&3, &5), (&5, &6)), Some((5, 5)));
    assert_eq!(intersect((&3, &5), (&5, &7)), Some((5, 5)));
}

#[test]
fn test_upstream() {
    assert_eq!(relation((&3, &5), (&6, &7)), GenomicRelation::Upstream);
    assert_eq!(relation((&1, &2), (&3, &5)), GenomicRelation::Upstream);
    assert_eq!(relation((&1, &1), (&2, &4)), GenomicRelation::Upstream);
}

#[test]
fn test_downstream() {
    assert_eq!(relation((&3, &5), (&1, &2)), GenomicRelation::Downstream);
    assert_eq!(relation((&6, &7), (&3, &5)), GenomicRelation::Downstream);
    assert_eq!(relation((&2, &4), (&1, &1)), GenomicRelation::Downstream);
}

#[test]
fn test_inside() {
    assert_eq!(relation((&3, &5), (&2, &5)), GenomicRelation::Inside);
    assert_eq!(relation((&3, &5), (&2, &6)), GenomicRelation::Inside);
    assert_eq!(relation((&3, &5), (&3, &6)), GenomicRelation::Inside);
    assert_eq!(relation((&3, &3), (&3, &6)), GenomicRelation::Inside);
    assert_eq!(relation((&4, &4), (&3, &6)), GenomicRelation::Inside);
    assert_eq!(relation((&6, &6), (&3, &6)), GenomicRelation::Inside);
}

#[test]
fn test_match() {
    assert_eq!(relation((&3, &5), (&3, &5)), GenomicRelation::Match);
    assert_eq!(relation((&3, &3), (&3, &3)), GenomicRelation::Match);
}

#[test]
fn test_overlaps() {
    assert_eq!(relation((&2, &5), (&3, &5)), GenomicRelation::Overlaps);
    assert_eq!(relation((&2, &6), (&3, &5)), GenomicRelation::Overlaps);
    assert_eq!(relation((&3, &6), (&3, &5)), GenomicRelation::Overlaps);
    assert_eq!(relation((&3, &6), (&3, &3)), GenomicRelation::Overlaps);
    assert_eq!(relation((&3, &6), (&4, &4)), GenomicRelation::Overlaps);
    assert_eq!(relation((&3, &6), (&6, &6)), GenomicRelation::Overlaps);
}

#[test]
fn test_right() {
    assert_eq!(relation((&3, &5), (&2, &3)), GenomicRelation::Right);
    assert_eq!(relation((&3, &5), (&2, &4)), GenomicRelation::Right);
    assert_eq!(relation((&3, &4), (&2, &3)), GenomicRelation::Right);
}

#[test]
fn test_left() {
    assert_eq!(relation((&3, &5), (&5, &6)), GenomicRelation::Left);
    assert_eq!(relation((&1, &2), (&2, &4)), GenomicRelation::Left);
    assert_eq!(relation((&2, &3), (&3, &5)), GenomicRelation::Left);
    assert_eq!(relation((&2, &4), (&3, &5)), GenomicRelation::Left);
    assert_eq!(relation((&2, &3), (&3, &4)), GenomicRelation::Left);
}

#[test]
fn test_case_1() {
    assert_eq!(subtract((&3, &5), (&1, &2)), vec![(3, 5)]);
}

#[test]
fn test_case_2() {
    assert_eq!(subtract((&3, &5), (&6, &7)), vec![(3, 5)]);
}

#[test]
fn test_case_3() {
    assert_eq!(subtract((&3, &5), (&2, &6)), vec![]);
}

#[test]
fn test_case_4() {
    assert_eq!(subtract((&3, &5), (&3, &5)), vec![]);
}

#[test]
fn test_case_5() {
    assert_eq!(subtract((&3, &5), (&4, &4)), vec![(3, 3), (5, 5)]);
}

#[test]
fn test_case_6() {
    assert_eq!(subtract((&3, &5), (&2, &3)), vec![(4, 5)]);
}

#[test]
fn test_case_7() {
    assert_eq!(subtract((&3, &5), (&5, &6)), vec![(3, 4)]);
}

#[test]
fn test_cds_overlap() {
    assert_eq!(exon_cds_overlap(&5, &8, &1, &10), (Some(5), Some(8)));
    assert_eq!(exon_cds_overlap(&5, &8, &5, &10), (Some(5), Some(8)));
    assert_eq!(exon_cds_overlap(&5, &8, &7, &10), (Some(7), Some(8)));
    assert_eq!(exon_cds_overlap(&5, &8, &1, &7), (Some(5), Some(7)));
    assert_eq!(exon_cds_overlap(&5, &8, &1, &8), (Some(5), Some(8)));
    assert_eq!(exon_cds_overlap(&5, &8, &7, &8), (Some(7), Some(8)));
    assert_eq!(exon_cds_overlap(&5, &8, &6, &7), (Some(6), Some(7)));
    assert_eq!(exon_cds_overlap(&5, &8, &2, &4), (None, None));
    assert_eq!(exon_cds_overlap(&5, &8, &9, &11), (None, None));
    assert_eq!(exon_cds_overlap(&5, &8, &8, &8), (Some(8), Some(8)));
    assert_eq!(exon_cds_overlap(&5, &8, &5, &5), (Some(5), Some(5)));
    assert_eq!(exon_cds_overlap(&5, &8, &6, &6), (Some(6), Some(6)));
}

#[test]
fn union_covers_both_overlapping_intervals() {
    assert_eq!(union((&3, &5), (&4, &9)), Some((3, 9)));
    assert_eq!(union((&3, &5), (&5, &5)), Some((3, 5)));
    assert_eq!(union((&3, &5), (&6, &9)), None);
}

#[test]
fn subtract_keeps_only_real_intervals() {
    assert_eq!(subtract((&3, &6), (&3, &3)), vec![(4, 6)]);
    assert_eq!(subtract((&3, &6), (&6, &6)), vec![(3, 5)]);
    assert_eq!(subtract((&3, &6), (&3, &6)), vec![]);
    assert_eq!(subtract((&0, &6), (&0, &2)), vec![(3, 6)]);
    assert_eq!(subtract((&3, &u32::MAX), (&5, &u32::MAX)), vec![(3, 4)]);
}
