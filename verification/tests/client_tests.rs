use krunker_client::client::Client;
use krunker_client::map::{RawMap, RawMapConfig, RawMapObject};

fn raw(name: &str, modes: Vec<u32>) -> RawMap {
    RawMap {
        name: String::from(name),
        sizes: vec![100_000, 7_500, 100_000, 1_000, 30_000, 1_000],
        objects: vec![
            RawMapObject {
                position: [0, -7_500, 0],
                size_index: Some(0),
                id: None,
                not_collidable: None,
                border: None,
                direction: None,
            },
            RawMapObject {
                position: [49_000, -7_500, 49_000],
                size_index: Some(1),
                id: None,
                not_collidable: None,
                border: None,
                direction: None,
            },
        ],
        config: RawMapConfig { modes },
        spawns: vec![vec![Some(0), Some(0), Some(0)]],
    }
}

#[test]
fn catalog_keeps_standard_mode_maps_only() {
    let raws = vec![raw("alpha", vec![0, 2]), raw("beta", vec![1]), raw("gamma", vec![0])];
    let client = Client::new(17, String::from("key"), &raws).unwrap();
    assert_eq!(client.prime, 17);
    assert_eq!(client.client_key, String::from("key"));
    assert_eq!(
        client.available_maps(),
        vec![String::from("alpha"), String::from("gamma")]
    );
}

#[test]
fn map_lookup_by_name() {
    let raws = vec![raw("alpha", vec![0])];
    let client = Client::new(3, String::from("key"), &raws).unwrap();
    let m = client.map_by_name("alpha").unwrap();
    assert_eq!(m.name(), String::from("alpha"));
    assert!(client.map_by_name("beta").is_none());
}

#[test]
fn a_bad_kept_map_fails_construction() {
    let mut bad = raw("broken", vec![0]);
    bad.spawns = vec![vec![Some(0), None, Some(0)]];
    assert!(Client::new(3, String::from("key"), &vec![bad]).is_err());

    // The same flaw in a filtered-out map does not matter.
    let mut ignored = raw("ignored", vec![5]);
    ignored.spawns = vec![vec![Some(0), None, Some(0)]];
    let client = Client::new(3, String::from("key"), &vec![ignored]).unwrap();
    assert_eq!(client.available_maps(), Vec::<String>::new());
}
