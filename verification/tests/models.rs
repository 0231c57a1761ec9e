use agent_infer::models::{NoopCommunicator, SkeletonModel, SKELETON_VOCAB};

#[test]
fn skeleton_forward_idle_returns_ok_zeroed_logits() {
    let mut model = SkeletonModel::new();
    let logits: Vec<f32> = model.forward(0.0f32);
    assert_eq!(logits.len(), SKELETON_VOCAB);
    assert!(logits.iter().all(|&x| x == 0.0));
}

#[test]
fn noop_communicator_collectives_are_inert() {
    let comm = NoopCommunicator;
    let mut tensor = vec![1.0_f32, 2.0, 3.0];
    let original = tensor.clone();

    comm.all_reduce(&mut tensor);
    let send = vec![4.0_f32, 5.0];
    let mut recv = vec![0.0_f32, 0.0];
    comm.all_to_all(&send, &mut recv);
    comm.send_recv(0, &mut tensor);

    assert_eq!(tensor, original);
    assert_eq!(recv, vec![0.0_f32, 0.0]);
}

#[test]
fn skeleton_model_is_dyn_modelarch_shaped() {
    fn drive(model: &mut SkeletonModel) -> Vec<f32> {
        model.forward(0.0f32)
    }
    let mut model = SkeletonModel::new();
    assert_eq!(drive(&mut model).len(), SKELETON_VOCAB);
}
