use vert_frag_viewer::gpu::{
    after_acquire, after_present, choose_extent, choose_image_count, choose_present_mode,
    choose_queue_family, choose_surface_format, descriptor_bindings, find_memory_type,
    float_buffer_size, group_count, random_buffer_len, AcquireOutcome, DescriptorKind,
    FrameAction, PresentOutcome, QueueFamilyInfo,
};
use vert_frag_viewer::random::random_bits;
use vert_frag_viewer::shader::{ParamKind, ShaderParam, DEFAULT_RAND_COUNT};

fn family(graphics: bool, present: Option<bool>) -> QueueFamilyInfo {
    QueueFamilyInfo { graphics, present }
}

#[test]
fn queue_family_choice() {
    let devices = vec![
        vec![family(true, Some(false)), family(false, Some(true))],
        vec![family(true, None), family(true, Some(true)), family(true, Some(true))],
    ];
    assert_eq!(choose_queue_family(&devices), Some((1, 1)));
    assert_eq!(choose_queue_family(&vec![vec![family(true, None)]]), None);
}

#[test]
fn surface_format_and_present_mode() {
    assert_eq!(choose_surface_format(&vec![37, 44, 44], 44), 1);
    assert_eq!(choose_surface_format(&vec![37, 50], 44), 0);
    assert_eq!(choose_present_mode(&vec![2, 1], 1, 2), 1);
    assert_eq!(choose_present_mode(&vec![0, 2], 1, 2), 2);
}

#[test]
fn extent_choice() {
    assert_eq!(choose_extent((800, 600), (10, 10), (1, 1), (4096, 4096)), (800, 600));
    assert_eq!(choose_extent((u32::MAX, u32::MAX), (1600, 1200), (1, 1), (1000, 4096)), (1000, 1200));
    assert_eq!(choose_extent((0, 0), (0, 0), (0, 0), (0, 0)), (1, 1));
}

#[test]
fn image_count_choice() {
    assert_eq!(choose_image_count(2, 0), 3);
    assert_eq!(choose_image_count(2, 8), 3);
    assert_eq!(choose_image_count(3, 3), 3);
}

#[test]
fn memory_type_choice() {
    let flags = vec![0b0001, 0b0110, 0b0111];
    assert_eq!(find_memory_type(0b111, &flags, 0b0110), Some(1));
    assert_eq!(find_memory_type(0b101, &flags, 0b0110), Some(2));
    assert_eq!(find_memory_type(0b001, &flags, 0b0110), None);
}

#[test]
fn dispatch_covers_the_image() {
    assert_eq!(group_count(1600, 1200, [16, 16, 1]), [100, 75, 1]);
    assert_eq!(group_count(1601, 1199, [16, 0, 4]), [101, 1199, 1]);
    assert_eq!(group_count(0, 7, [8, 8, 1]), [0, 1, 1]);
}

fn param(binding: u32, kind: ParamKind, rand_count: Option<u32>) -> ShaderParam {
    ShaderParam { name: String::new(), binding, kind, rand_count }
}

#[test]
fn descriptor_layout() {
    let params = vec![param(2, ParamKind::OutputTexture, None), param(0, ParamKind::RandomFloatBuffer, Some(5))];
    assert_eq!(
        descriptor_bindings(&params),
        vec![(2, DescriptorKind::StorageImage), (0, DescriptorKind::StorageBuffer)]
    );
    assert_eq!(random_buffer_len(&params), Some(5));
    assert_eq!(random_buffer_len(&vec![param(0, ParamKind::RandomFloatBuffer, None)]), Some(DEFAULT_RAND_COUNT));
    assert_eq!(random_buffer_len(&vec![param(0, ParamKind::OutputTexture, None)]), None);
    assert_eq!(float_buffer_size(DEFAULT_RAND_COUNT), 524_288);
}

#[test]
fn frame_decisions() {
    assert!(after_acquire(AcquireOutcome::Acquired { image_index: 2, suboptimal: false }) == FrameAction::Render(2));
    assert!(after_acquire(AcquireOutcome::Acquired { image_index: 2, suboptimal: true }) == FrameAction::Recreate);
    assert!(after_acquire(AcquireOutcome::OutOfDate) == FrameAction::Recreate);
    assert!(after_acquire(AcquireOutcome::Failed(-4)) == FrameAction::Abort(-4));
    assert!(after_present(PresentOutcome::Presented { suboptimal: false }) == FrameAction::Continue);
    assert!(after_present(PresentOutcome::Presented { suboptimal: true }) == FrameAction::Recreate);
    assert!(after_present(PresentOutcome::OutOfDate) == FrameAction::Recreate);
    assert!(after_present(PresentOutcome::Failed(-3)) == FrameAction::Abort(-3));
}

#[test]
fn random_values() {
    let values = random_bits(42, 3);
    assert_eq!(values, vec![10_400_537, 7_606_673, 1_912_743]);
    assert_eq!(random_bits(42, 0), Vec::<u32>::new());
    assert!(random_bits(7, 1000).iter().all(|&v| v < (1 << 24)));
}
