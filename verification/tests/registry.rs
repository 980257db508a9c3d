use draw_capture::TextureId;
use draw_capture::Textures;

#[test]
fn new_registry_is_empty() {
    let textures: Textures<u32> = Textures::new();
    assert_eq!(textures.get(TextureId::new(0)), None);
    assert_eq!(textures.get(TextureId::new(usize::MAX)), None);
}

#[test]
fn default_registry_starts_at_zero() {
    let mut textures: Textures<u32> = Textures::default();
    assert_eq!(textures.get(TextureId::new(0)), None);
    assert_eq!(textures.insert(9).id(), 0);
}

#[test]
fn insert_hands_out_consecutive_ids() {
    let mut textures: Textures<String> = Textures::new();
    for expected in 0..50usize {
        let id = textures.insert(format!("texture {expected}"));
        assert_eq!(id, TextureId::new(expected));
    }
    for n in 0..50usize {
        assert_eq!(textures.get(TextureId::new(n)), Some(&format!("texture {n}")));
    }
    assert_eq!(textures.get(TextureId::new(50)), None);
}

#[test]
fn inserted_ids_are_pairwise_distinct() {
    let mut textures: Textures<u8> = Textures::new();
    let mut seen: Vec<TextureId> = Vec::new();
    for round in 0..40u8 {
        let id = textures.insert(round);
        assert!(!seen.contains(&id));
        seen.push(id);
        if round % 3 == 0 {
            textures.remove(id);
        }
        if round % 5 == 0 {
            textures.replace(TextureId::new(1000 + round as usize), round);
        }
    }
    assert_eq!(seen.len(), 40);
}

#[test]
fn ids_are_not_reused_after_removal() {
    let mut textures: Textures<&str> = Textures::new();
    assert_eq!(textures.insert("a").id(), 0);
    assert_eq!(textures.insert("b").id(), 1);
    assert_eq!(textures.insert("c").id(), 2);
    assert_eq!(textures.remove(TextureId::new(1)), Some("b"));
    assert_eq!(textures.insert("d").id(), 3);
    assert_eq!(textures.get(TextureId::new(1)), None);
    assert_eq!(textures.get(TextureId::new(3)), Some(&"d"));
    assert_eq!(textures.get(TextureId::new(0)), Some(&"a"));
    assert_eq!(textures.get(TextureId::new(2)), Some(&"c"));
}

#[test]
fn remove_returns_the_value_once() {
    let mut textures: Textures<String> = Textures::new();
    let id = textures.insert(String::from("atlas"));
    assert_eq!(textures.remove(id), Some(String::from("atlas")));
    assert_eq!(textures.remove(id), None);
    assert_eq!(textures.get(id), None);
}

#[test]
fn remove_of_an_absent_id_changes_nothing() {
    let mut textures: Textures<u8> = Textures::new();
    let id = textures.insert(4);
    assert_eq!(textures.remove(TextureId::new(17)), None);
    assert_eq!(textures.get(id), Some(&4));
    assert_eq!(textures.insert(5).id(), 1);
}

#[test]
fn replace_then_get_returns_the_new_value() {
    let mut textures: Textures<&str> = Textures::new();
    let id = textures.insert("old");
    assert_eq!(textures.replace(id, "new"), Some("old"));
    assert_eq!(textures.get(id), Some(&"new"));
    assert_eq!(textures.replace(id, "newer"), Some("new"));
    assert_eq!(textures.get(id), Some(&"newer"));
}

#[test]
fn replace_registers_an_id_that_was_never_handed_out() {
    let mut textures: Textures<&str> = Textures::new();
    let outside = TextureId::new(77);
    assert_eq!(textures.replace(outside, "external"), None);
    assert_eq!(textures.get(outside), Some(&"external"));
    // The counter does not move: the next insert still gets the first number.
    assert_eq!(textures.insert("first").id(), 0);
    assert_eq!(textures.get(outside), Some(&"external"));
}

#[test]
fn insert_reaches_a_number_that_replace_put_in_use() {
    let mut textures: Textures<&str> = Textures::new();
    assert_eq!(textures.replace(TextureId::new(1), "external"), None);
    assert_eq!(textures.insert("zero").id(), 0);
    assert_eq!(textures.insert("one").id(), 1);
    assert_eq!(textures.get(TextureId::new(1)), Some(&"one"));
}

#[test]
fn get_mut_changes_the_value_in_place() {
    let mut textures: Textures<Vec<u8>> = Textures::new();
    let id = textures.insert(vec![1, 2]);
    match textures.get_mut(id) {
        Some(pixels) => pixels.push(3),
        None => panic!("the texture was just inserted"),
    }
    assert_eq!(textures.get(id), Some(&vec![1, 2, 3]));
    assert!(textures.get_mut(TextureId::new(5)).is_none());
    assert_eq!(textures.get(TextureId::new(5)), None);
    assert_eq!(textures.insert(vec![]).id(), 1);
}

#[test]
fn try_insert_numbers_like_insert() {
    let mut textures: Textures<char> = Textures::new();
    assert_eq!(textures.try_insert('a').map(|id| id.id()).ok(), Some(0));
    assert_eq!(textures.insert('b').id(), 1);
    match textures.try_insert('c') {
        Ok(id) => assert_eq!(id.id(), 2),
        Err(e) => panic!("numbers were not used up, yet {:?} came back", e.texture),
    }
    assert_eq!(textures.get(TextureId::new(2)), Some(&'c'));
}

#[test]
fn texture_id_holds_its_number() {
    assert_eq!(TextureId::new(12).id(), 12);
    assert_eq!(TextureId::from(12usize).id(), 12);
    assert_eq!(TextureId::from(12usize), TextureId::new(12));
    assert_ne!(TextureId::new(12), TextureId::new(13));
    assert_eq!(TextureId::new(0).id(), 0);
    assert_eq!(TextureId::new(usize::MAX).id(), usize::MAX);
    let copy = TextureId::new(5);
    let same = copy;
    assert_eq!(copy, same);
}
