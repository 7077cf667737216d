use vera::exiv2_backend::EXIFProcessor;
use vera::geo_utils::{GPSConverter, GeohashBuilder, GEOHASH_BASE32};

#[test]
fn gps_fields_need_all_four_values() {
    let m = EXIFProcessor::parse_print_output(
        "Exif.GPSInfo.GPSLatitudeRef Ascii 2 N\n\
         Exif.GPSInfo.GPSLatitude Rational 3 43/1 28/1 2814/1000\n\
         Exif.GPSInfo.GPSLongitudeRef Ascii 2 W\n\
         Exif.GPSInfo.GPSLongitude Rational 3 79/1 23/1 0/1\n",
    );
    let f = GPSConverter::gps_fields(&m).unwrap();
    assert_eq!(f.lat_ref, "N");
    assert_eq!(f.lat_raw, "43/1 28/1 2814/1000");
    assert_eq!(f.lon_ref, "W");
    assert_eq!(f.lon_raw, "79/1 23/1 0/1");
    let m2 = EXIFProcessor::parse_print_output("Exif.GPSInfo.GPSLatitudeRef Ascii 2 N\n");
    assert!(GPSConverter::gps_fields(&m2).is_none());
    let empty = EXIFProcessor::parse_print_output("");
    assert!(GPSConverter::gps_fields(&empty).is_none());
    assert_eq!(GPSConverter::get_non_empty_value(&m, "Exif.GPSInfo.GPSLatitudeRef"), Some("N".to_string()));
    assert_eq!(GPSConverter::get_non_empty_value(&m, "Exif.Image.Make"), None);
}

#[test]
fn dms_tokens_and_rationals() {
    assert_eq!(
        GPSConverter::dms_tokens(" 43/1  28/1 2814/1000 extra"),
        Some(("43/1".to_string(), "28/1".to_string(), "2814/1000".to_string()))
    );
    assert_eq!(GPSConverter::dms_tokens("43/1 28/1"), None);
    assert_eq!(GPSConverter::split_rational("2814/1000"), ("2814".to_string(), Some("1000".to_string())));
    assert_eq!(GPSConverter::split_rational("43"), ("43".to_string(), None));
    assert_eq!(GPSConverter::split_rational("1/2/3"), ("1".to_string(), Some("2/3".to_string())));
}

#[test]
fn references_and_hemispheres() {
    assert!(GPSConverter::is_negative_ref("S"));
    assert!(GPSConverter::is_negative_ref("w"));
    assert!(!GPSConverter::is_negative_ref("N"));
    assert!(!GPSConverter::is_negative_ref("SW"));
    assert_eq!(GPSConverter::hemisphere(true, true), "N");
    assert_eq!(GPSConverter::hemisphere(true, false), "S");
    assert_eq!(GPSConverter::hemisphere(false, true), "E");
    assert_eq!(GPSConverter::hemisphere(false, false), "W");
}

fn geohash(latitude: f64, longitude: f64, precision: usize) -> String {
    let mut lat = [-90.0_f64, 90.0_f64];
    let mut lon = [-180.0_f64, 180.0_f64];
    let mut b = GeohashBuilder::new(precision);
    while !b.is_done() {
        if b.next_is_longitude() {
            let mid = (lon[0] + lon[1]) / 2.0;
            let up = longitude >= mid;
            if up { lon[0] = mid } else { lon[1] = mid }
            b.push(up);
        } else {
            let mid = (lat[0] + lat[1]) / 2.0;
            let up = latitude >= mid;
            if up { lat[0] = mid } else { lat[1] = mid }
            b.push(up);
        }
    }
    b.finish()
}

#[test]
fn geohash_known_values() {
    assert_eq!(geohash(57.64911, 10.40744, 11), "u4pruydqqvj");
    assert_eq!(geohash(0.0, 0.0, 1), "s");
    assert_eq!(geohash(-90.0, -180.0, 3), "000");
    assert_eq!(geohash(1.0, 1.0, 0), "");
    let h = geohash(48.8583, 2.2945, 12);
    assert_eq!(h.len(), 12);
    assert!(h.chars().all(|c| GEOHASH_BASE32.contains(c)));
}
