use bevy_egui::image_id::{ImageId, LoadError};
use bevy_egui::loader::{BevyTextureLoader, EntryRegistry, ImageSize, RegistrationQueue, TexturePoll};
use bevy_egui::options::{TextureFilter, TextureOptions, TextureWrapMode};

const KEY: &str = "bevy://uuid/550e8400-e29b-41d4-a716-446655440000";
const SAMPLE_UUID: u128 = 0x550e8400_e29b_41d4_a716_446655440000;

fn repeat() -> TextureOptions {
    TextureOptions { wrap_mode: TextureWrapMode::Repeat, ..TextureOptions::default() }
}

fn size256() -> ImageSize {
    ImageSize { width: 256, height: 256 }
}

#[test]
fn uuid_request_resolve_ready() {
    let mut l = BevyTextureLoader::new();
    assert_eq!(l.load(KEY, TextureOptions::default()), Ok(TexturePoll::Pending));
    let regs = l.drain_registrations();
    assert_eq!(regs.len(), 1);
    assert_eq!(regs[0].0, KEY);
    assert_eq!(regs[0].1, ImageId::Uuid { uuid: SAMPLE_UUID });
    l.resolve(KEY, size256());
    assert_eq!(
        l.load(KEY, TextureOptions::default()),
        Ok(TexturePoll::Ready { handle: 0, size: size256() })
    );
    assert_eq!(l.load(KEY, repeat()), Ok(TexturePoll::Ready { handle: 1, size: size256() }));
}

#[test]
fn garbage_key_changes_nothing() {
    let mut l = BevyTextureLoader::new();
    assert_eq!(l.load("bevy://garbage", TextureOptions::default()), Err(LoadError::NotSupported));
    assert_eq!(l.load("file://a.png", TextureOptions::default()), Err(LoadError::NotSupported));
    assert!(l.drain_registrations().is_empty());
    assert!(l.variants_of("bevy://garbage").is_empty());
    l.load("bevy://index/3", TextureOptions::default()).unwrap();
    l.resolve("bevy://index/3", size256());
    // the first valid key still gets the first handle
    assert_eq!(
        l.load("bevy://index/3", TextureOptions::default()),
        Ok(TexturePoll::Ready { handle: 0, size: size256() })
    );
}

#[test]
fn same_request_twice_keeps_handle() {
    let mut l = BevyTextureLoader::new();
    let o = repeat();
    assert_eq!(l.load(KEY, o), Ok(TexturePoll::Pending));
    assert_eq!(l.load(KEY, o), Ok(TexturePoll::Pending));
    assert_eq!(l.variants_of(KEY), vec![(ImageId::Uuid { uuid: SAMPLE_UUID }, 0, 7)]);
    l.resolve(KEY, size256());
    assert_eq!(l.load(KEY, o), Ok(TexturePoll::Ready { handle: 0, size: size256() }));
    assert_eq!(l.load(KEY, o), Ok(TexturePoll::Ready { handle: 0, size: size256() }));
}

#[test]
fn many_variants_one_registration() {
    let mut l = BevyTextureLoader::new();
    for i in 0..12usize {
        let o = bevy_egui::options::decode_texture_option_bits(i);
        assert_eq!(l.load("bevy://index/9", o), Ok(TexturePoll::Pending));
    }
    let regs = l.drain_registrations();
    assert_eq!(regs.len(), 1);
    assert_eq!(regs[0].1, ImageId::Index { index: 9, generation: 0 });
    assert!(l.drain_registrations().is_empty());
    let v = l.variants_of("bevy://index/9");
    assert_eq!(v.len(), 12);
    for (i, (id, handle, slot)) in v.into_iter().enumerate() {
        assert_eq!(id, ImageId::Index { index: 9, generation: 0 });
        assert_eq!(handle, i as u64);
        assert_eq!(slot, i);
    }
}

#[test]
fn variants_in_slot_order() {
    let mut l = BevyTextureLoader::new();
    let nearest = TextureOptions {
        magnification: TextureFilter::Nearest,
        minification: TextureFilter::Nearest,
        wrap_mode: TextureWrapMode::MirroredRepeat,
    };
    l.load(KEY, nearest).unwrap();
    l.load(KEY, TextureOptions::default()).unwrap();
    let id = ImageId::Uuid { uuid: SAMPLE_UUID };
    assert_eq!(l.variants_of(KEY), vec![(id, 1, 3), (id, 0, 8)]);
}

#[test]
fn forget_then_resolve_is_dropped() {
    let mut l = BevyTextureLoader::new();
    l.load(KEY, TextureOptions::default()).unwrap();
    assert_eq!(l.drain_registrations().len(), 1);
    l.forget(KEY);
    l.resolve(KEY, size256());
    assert!(l.variants_of(KEY).is_empty());
    assert_eq!(l.load(KEY, TextureOptions::default()), Ok(TexturePoll::Pending));
    let regs = l.drain_registrations();
    assert_eq!(regs.len(), 1);
    assert_eq!(regs[0].0, KEY);
    // a fresh handle, not the forgotten one
    assert_eq!(l.variants_of(KEY), vec![(ImageId::Uuid { uuid: SAMPLE_UUID }, 1, 3)]);
}

#[test]
fn forget_unknown_key_is_noop() {
    let mut l = BevyTextureLoader::new();
    l.load("bevy://index/1", TextureOptions::default()).unwrap();
    l.load("bevy://index/2", TextureOptions::default()).unwrap();
    l.forget("bevy://index/7");
    l.forget("bevy://index/1");
    assert!(l.variants_of("bevy://index/1").is_empty());
    assert_eq!(l.variants_of("bevy://index/2").len(), 1);
}

#[test]
fn forget_all_never_reuses_handles() {
    let mut l = BevyTextureLoader::new();
    l.load("bevy://index/1", TextureOptions::default()).unwrap();
    l.load("bevy://index/2", repeat()).unwrap();
    l.forget_all();
    assert!(l.variants_of("bevy://index/1").is_empty());
    assert!(l.variants_of("bevy://index/2").is_empty());
    l.load("bevy://index/1", TextureOptions::default()).unwrap();
    l.resolve("bevy://index/1", ImageSize { width: 4, height: 2 });
    assert_eq!(
        l.load("bevy://index/1", TextureOptions::default()),
        Ok(TexturePoll::Ready { handle: 2, size: ImageSize { width: 4, height: 2 } })
    );
}

#[test]
fn resolve_unknown_key_is_noop() {
    let mut l = BevyTextureLoader::new();
    l.resolve(KEY, size256());
    assert_eq!(l.load(KEY, TextureOptions::default()), Ok(TexturePoll::Pending));
}

#[test]
fn registry_hands_back_one_record() {
    let mut map = EntryRegistry::new();
    let mut queue = RegistrationQueue::new();
    let (r, record) = map.request("bevy://index/4294967296", TextureOptions::default());
    assert_eq!(r, Ok(TexturePoll::Pending));
    let record = record.unwrap();
    assert_eq!(record.0, "bevy://index/4294967296");
    assert_eq!(record.1, ImageId::Index { index: 0, generation: 1 });
    queue.push(record);
    let (r, record) = map.request("bevy://index/4294967296", repeat());
    assert_eq!(r, Ok(TexturePoll::Pending));
    assert!(record.is_none());
    let (r, record) = map.request("bevy://nope", repeat());
    assert_eq!(r, Err(LoadError::NotSupported));
    assert!(record.is_none());
    assert_eq!(map.next_handle(), 2);
    let drained = queue.drain();
    assert_eq!(drained.len(), 1);
    assert!(queue.drain().is_empty());
}
