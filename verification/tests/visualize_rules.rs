//! Drawing properties and map addresses.

use gps_trajectory_validation::visualize::{map_address, map_address_of, FeatureProperties};

#[test]
fn new_properties_name_nothing() {
    let properties = FeatureProperties::new();
    assert_eq!(properties.color, "");
    assert_eq!(properties.width, None);
    assert_eq!(properties.opacity, None);
    let properties = FeatureProperties::default();
    assert_eq!(properties.color, "");
    assert_eq!(properties.width, None);
    assert_eq!(properties.opacity, None);
}

#[test]
fn color_changes_the_colour_only() {
    let properties = FeatureProperties {
        color: "#000000".to_string(),
        width: Some(3),
        opacity: Some(0.5f32.to_bits()),
    };
    let properties = properties.color("#00ffff");
    assert_eq!(properties.color, "#00ffff");
    assert_eq!(properties.width, Some(3));
    assert_eq!(properties.opacity, Some(0.5f32.to_bits()));
}

#[test]
fn map_address_percent_encodes_the_document() {
    assert_eq!(
        map_address("{\"type\": \"LineString\"}"),
        "http://geojson.io/#data=data:application/json,%7B%22type%22%3A%20%22LineString%22%7D"
    );
}

#[test]
fn map_address_leaves_unreserved_bytes_alone() {
    assert_eq!(
        map_address("AZaz09-._~"),
        "http://geojson.io/#data=data:application/json,AZaz09-._~"
    );
    assert_eq!(map_address(""), "http://geojson.io/#data=data:application/json,");
}

#[test]
fn map_address_encodes_every_byte_of_a_character() {
    assert_eq!(
        map_address("é/\n"),
        "http://geojson.io/#data=data:application/json,%C3%A9%2F%0A"
    );
}

#[test]
fn map_address_of_takes_the_document_as_it_is() {
    assert_eq!(map_address_of("%7B%7D"), "http://geojson.io/#data=data:application/json,%7B%7D");
    assert_eq!(map_address_of("{}"), "http://geojson.io/#data=data:application/json,{}");
}
