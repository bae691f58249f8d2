use bevy_xpbd::contacts::{Contacts, StaticContacts};
use bevy_xpbd::frame::FixFrameCount;
use bevy_xpbd::schedule::XpbdSystems;
use bevy_xpbd::NUM_SUBSTEPS;

#[test]
fn frame_count_starts_at_zero_and_counts_up() {
    let mut c = FixFrameCount::default();
    assert_eq!(c.0, 0);
    c.advance();
    c.advance();
    assert_eq!(c.0, 2);
}

#[test]
fn frame_count_wraps_after_max() {
    let mut c = FixFrameCount(u32::MAX);
    c.advance();
    assert_eq!(c.0, 0);
    let mut d = FixFrameCount(41);
    d.advance();
    assert_eq!(d.0, 42);
}

#[test]
fn stages_run_in_chain_order() {
    assert_eq!(
        XpbdSystems::chain(),
        vec![
            XpbdSystems::CollectCollisionPairs,
            XpbdSystems::Integrate,
            XpbdSystems::SolvePos,
            XpbdSystems::UpdateVel,
            XpbdSystems::SolveVel,
            XpbdSystems::SyncTransfrom,
        ]
    );
}

#[test]
fn chain_names_each_stage_once() {
    let chain = XpbdSystems::chain();
    for s in chain.iter() {
        assert_eq!(chain.iter().filter(|t| *t == s).count(), 1);
    }
    assert_eq!(chain.len(), 6);
}

#[test]
fn ten_substeps() {
    assert_eq!(NUM_SUBSTEPS, 10);
}

#[test]
fn contacts_record_in_order_and_clear() {
    let mut c: Contacts<(f32, f32)> = Contacts::new();
    assert_eq!(c.len(), 0);
    c.push(3, 1, (1.0, 0.0));
    c.push(7, 2, (0.0, -1.0));
    assert_eq!(c.len(), 2);
    assert_eq!(c.as_slice(), &[(3, 1, (1.0, 0.0)), (7, 2, (0.0, -1.0))]);
    for &(a, b, _) in c.as_slice() {
        assert!(a != b);
    }
    c.clear();
    assert_eq!(c.len(), 0);
}

#[test]
fn static_contacts_default_empty() {
    let mut s: StaticContacts<u8> = StaticContacts::default();
    assert!(s.as_slice().is_empty());
    s.push(1, 2, 9);
    assert_eq!(s.as_slice(), &[(1, 2, 9)]);
}
