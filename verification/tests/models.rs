use voxel_server::coords::Coords2;
use voxel_server::models::{request_coords, MessageType, Packet};

fn request(json: &str) -> Packet {
    Packet { kind: MessageType::Request, json: json.to_owned(), peers: Vec::new() }
}

#[test]
fn request_coords_needs_both_numbers() {
    assert_eq!(request_coords(Some(3), Some(-4)), Some(Coords2(3, -4)));
    assert_eq!(request_coords(None, Some(-4)), None);
    assert_eq!(request_coords(Some(3), None), None);
    assert_eq!(request_coords(None, None), None);
}

#[test]
fn request_coords_cuts_to_32_bits() {
    assert_eq!(request_coords(Some(4294967296 + 7), Some(-4294967296 - 9)), Some(Coords2(7, -9)));
    assert_eq!(request_coords(Some(2147483648), Some(0)), Some(Coords2(i32::MIN, 0)));
    assert_eq!(request_coords(Some(i64::MAX), Some(i64::MIN)), Some(Coords2(-1, 0)));
}

#[test]
fn requested_chunk_reads_x_and_z_from_json() {
    assert_eq!(request("{\"x\": 3, \"z\": -4}").requested_chunk(), Some(Coords2(3, -4)));
    assert_eq!(
        request("{\"z\": 12, \"other\": [1, 2], \"x\": 0}").requested_chunk(),
        Some(Coords2(0, 12))
    );
}

#[test]
fn requested_chunk_is_none_for_text_that_is_not_json() {
    assert_eq!(request("").requested_chunk(), None);
    assert_eq!(request("x=3,z=4").requested_chunk(), None);
    assert_eq!(request("{\"x\": 3, \"z\": 4").requested_chunk(), None);
    assert_eq!(request("{\"x\": 3, \"z\": 4} trailing").requested_chunk(), None);
}

#[test]
fn requested_chunk_is_none_without_both_members() {
    assert_eq!(request("{}").requested_chunk(), None);
    assert_eq!(request("{\"x\": 3}").requested_chunk(), None);
    assert_eq!(request("{\"z\": 3}").requested_chunk(), None);
    assert_eq!(request("[3, 4]").requested_chunk(), None);
    assert_eq!(request("7").requested_chunk(), None);
    assert_eq!(request("null").requested_chunk(), None);
}

#[test]
fn requested_chunk_is_none_for_members_that_are_no_integers() {
    assert_eq!(request("{\"x\": 3.5, \"z\": 4}").requested_chunk(), None);
    assert_eq!(request("{\"x\": \"3\", \"z\": 4}").requested_chunk(), None);
    assert_eq!(request("{\"x\": 3, \"z\": null}").requested_chunk(), None);
    assert_eq!(request("{\"x\": 3, \"z\": 18446744073709551615}").requested_chunk(), None);
    assert_eq!(request("{\"x\": 256.0, \"z\": 1}").requested_chunk(), None);
}

#[test]
fn requested_chunk_takes_the_last_of_repeated_members() {
    assert_eq!(request("{\"x\": 1, \"x\": 2, \"z\": 3}").requested_chunk(), Some(Coords2(2, 3)));
}
