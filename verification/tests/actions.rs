use fluvio_core::controllers::actions::SpuAction;

#[test]
fn spu_action_notes_id_and_status() {
    let up = SpuAction::new(5001, true);
    assert_eq!(up, SpuAction { id: 5001, status: true });
    assert_ne!(up, SpuAction { id: 5001, status: false });
    assert_ne!(up, SpuAction { id: 5002, status: true });
    assert_eq!(up.clone(), up);
}
