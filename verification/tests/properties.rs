use nmea0183::common::Decimal;
use nmea0183::coords::Hemisphere;
use nmea0183::coords::Latitude;
use nmea0183::coords::Speed;
use nmea0183::Error;
use nmea0183::{ParseResult, Parser, Source};

fn dec(neg: bool, mantissa: u64, scale: u32) -> Decimal {
    Decimal::new(neg, mantissa, scale)
}

/// Builds a framed sentence with its correct checksum from a body.
fn frame(body: &str) -> Vec<u8> {
    let mut chk: u8 = 0;
    for b in body.as_bytes() {
        chk ^= *b;
    }
    format!("${}*{:02X}\r\n", body, chk).into_bytes()
}

#[test]
fn test_resynchronization_garbage_around_sentence() {
    let mut wire: Vec<u8> = b"noise \x01\x02 more noise".to_vec();
    wire.extend_from_slice(b"$GPVTG,089.0,T,,,15.2,N,,,A*12\r\n");
    wire.extend_from_slice(b"trailing junk without a start");
    let mut p = Parser::new();
    let rs = p.parse_from_bytes(&wire);
    assert_eq!(rs.len(), 1);
    assert!(rs[0].is_ok());
    match rs[0].clone().unwrap() {
        ParseResult::VTG(Some(vtg)) => {
            assert_eq!(vtg.source, Source::GPS);
            assert_eq!(vtg.speed, Speed::from_knots(dec(false, 152, 1)));
        }
        _ => panic!("expected a VTG record"),
    }
}

#[test]
fn test_garbage_alone_produces_nothing() {
    let mut p = Parser::new();
    let rs = p.parse_from_bytes(b"complete nonsense, no start byte at all \x7f\x00");
    assert!(rs.is_empty());
}

#[test]
fn test_chunk_boundary_independence_all_splits() {
    let wire = b"$GPVTG,089.0,T,,,15.2,N,,,A*12\r\n";
    let mut whole = Parser::new();
    let expected = whole.parse_from_bytes(&wire[..]);
    assert_eq!(expected.len(), 1);
    for split in 0..=wire.len() {
        let mut p = Parser::new();
        let mut rs = p.parse_from_bytes(&wire[..split]);
        rs.extend(p.parse_from_bytes(&wire[split..]));
        assert_eq!(rs, expected);
    }
}

#[test]
fn test_checksum_sensitivity_single_bit_flips() {
    let wire = b"$GPVTG,089.0,T,,,15.2,N,,,A*12\r\n";
    // Body bytes sit between the `$` and the `*`.
    let star = wire.iter().position(|b| *b == b'*').unwrap();
    for i in 1..star {
        for bit in 0..8 {
            let mut corrupted = wire.to_vec();
            corrupted[i] ^= 1u8 << bit;
            let mut p = Parser::new();
            let rs = p.parse_from_bytes(&corrupted);
            for r in rs.iter() {
                assert!(r.is_err(), "corrupted sentence decoded successfully");
            }
            let flipped = corrupted[i];
            if flipped != b'$' && flipped != b'*' {
                assert_eq!(rs.len(), 1);
                assert_eq!(rs[0], Err(Error::ChecksumMismatch));
            }
        }
    }
}

#[test]
fn test_coordinate_round_trip() {
    // "5542.2389,N" carried by an RMC sentence.
    let wire = b"$GPRMC,125504.049,A,5542.2389,N,03741.6063,E,0.06,25.82,200906,,,A*56\r\n";
    let mut p = Parser::new();
    let rs = p.parse_from_bytes(&wire[..]);
    let rmc = match rs[0].clone().unwrap() {
        ParseResult::RMC(Some(rmc)) => rmc,
        _ => panic!("expected an RMC record"),
    };
    let (num, den) = rmc.latitude.decimal_degrees();
    let value = num as f64 / den as f64;
    assert!((value - 55.703982).abs() < 1e-6);

    // "5548.607,S" yields the negated magnitude.
    let wire2 = b"$GPRMC,113650.0,A,5548.607,S,03739.387,W,000.01,255.6,210403,08.7,E*66\r\n";
    let mut p2 = Parser::new();
    let rs2 = p2.parse_from_bytes(&wire2[..]);
    let rmc2 = match rs2[0].clone().unwrap() {
        ParseResult::RMC(Some(rmc)) => rmc,
        _ => panic!("expected an RMC record"),
    };
    let (num2, den2) = rmc2.latitude.decimal_degrees();
    let value2 = num2 as f64 / den2 as f64;
    assert!(value2 < 0.0);
    assert!((value2 + 55.81011666666667).abs() < 1e-9);
    let (lnum, lden) = rmc2.longitude.decimal_degrees();
    assert!((lnum as f64 / lden as f64 + 37.65645).abs() < 1e-9);
}

#[test]
fn test_decimal_degrees_exact_fraction() {
    let lat = Latitude {
        degrees: 55,
        minutes: 42,
        seconds: dec(false, 14334, 3),
        hemisphere: Hemisphere::North,
    };
    let (num, den) = lat.decimal_degrees();
    // 55 * 3600000 + 42 * 60000 + 14334 over 3600000.
    assert_eq!(num, 200534334);
    assert_eq!(den, 3600000);
}

#[test]
fn test_length_bound_recovery() {
    let mut wire: Vec<u8> = Vec::new();
    wire.extend_from_slice(&[b'$']);
    wire.extend_from_slice(&[b'7'; 130]);
    wire.extend_from_slice(b"$GPVTG,089.0,T,,,15.2,N,,,A*12\r\n");
    let mut p = Parser::new();
    let rs = p.parse_from_bytes(&wire);
    assert_eq!(rs.len(), 2);
    assert_eq!(rs[0], Err(Error::SentenceTooLong));
    assert!(matches!(rs[1], Ok(ParseResult::VTG(Some(_)))));
}

#[test]
fn test_error_messages() {
    assert_eq!(Error::SentenceTooLong.message(), "NMEA sentence is too long!");
    assert_eq!(Error::UnsupportedSource.message(), "Source is not supported!");
    assert_eq!(
        Error::UnsupportedSentenceType.message(),
        "Unsupported sentence type."
    );
    assert_eq!(Error::ChecksumMismatch.message(), "Checksum mismatch!");
    assert_eq!(Error::MalformedField.message(), "Malformed field!");
}

#[test]
fn test_checksum_mismatch_reported() {
    let wire = b"$GPVTG,089.0,T,,,15.2,N,,,A*13\r\n";
    let mut p = Parser::new();
    let rs = p.parse_from_bytes(&wire[..]);
    assert_eq!(rs.len(), 1);
    assert_eq!(rs[0], Err(Error::ChecksumMismatch));
}

#[test]
fn test_malformed_field_reported() {
    let wire = frame("GPZDA,abc,12,09,2018,,");
    let mut p = Parser::new();
    let rs = p.parse_from_bytes(&wire);
    assert_eq!(rs.len(), 1);
    assert_eq!(rs[0], Err(Error::MalformedField));
}

#[test]
fn test_recognized_without_payload() {
    // A void RMC: status V and empty mandatory fields.
    let wire = frame("GPRMC,,V,,,,,,,,,");
    let mut p = Parser::new();
    let rs = p.parse_from_bytes(&wire);
    assert_eq!(rs.len(), 1);
    assert_eq!(rs[0], Ok(ParseResult::RMC(None)));
}

#[test]
fn test_speed_kph_conversion() {
    let s = Speed::from_knots(dec(false, 152, 1));
    // 15.2 knots is exactly 28.1504 km/h.
    assert_eq!(s.as_kph(), dec(false, 281504, 4));
    assert_eq!(s.as_knots(), dec(false, 152, 1));
    // 15.2 knots is exactly 152 * 463 / 9000 m/s.
    let (num, den) = s.as_mps_fraction();
    assert_eq!(num, 70376);
    assert_eq!(den, 9000);
    assert!((num as f64 / den as f64 - 7.819555555555555).abs() < 1e-12);
}

#[test]
fn test_gsv_accumulates_across_messages() {
    let m1 = frame("GPGSV,2,1,08,01,40,083,46,02,17,308,41,12,07,344,39,14,22,228,45");
    let m2 = frame("GPGSV,2,2,08,04,12,120,40,05,30,270,42,06,60,010,47,07,45,180,44");
    let mut p = Parser::new();
    let rs1 = p.parse_from_bytes(&m1);
    let gsv1 = match rs1[0].clone().unwrap() {
        ParseResult::GSV(Some(g)) => g,
        _ => panic!("expected a GSV record"),
    };
    assert_eq!(gsv1.get_in_view_satellites().len(), 4);
    let rs2 = p.parse_from_bytes(&m2);
    let gsv2 = match rs2[0].clone().unwrap() {
        ParseResult::GSV(Some(g)) => g,
        _ => panic!("expected a GSV record"),
    };
    let sats = gsv2.get_in_view_satellites();
    assert_eq!(sats.len(), 8);
    assert_eq!(sats[0].prn, 1);
    assert_eq!(sats[7].prn, 7);
    // A sequence restarting at message one resets the accumulation.
    let rs3 = p.parse_from_bytes(&m1);
    let gsv3 = match rs3[0].clone().unwrap() {
        ParseResult::GSV(Some(g)) => g,
        _ => panic!("expected a GSV record"),
    };
    assert_eq!(gsv3.get_in_view_satellites().len(), 4);
}

#[test]
fn test_empty_fields_are_absent_not_zero() {
    // ZDA with time and date but both offsets empty: absent, never zero.
    let wire = frame("GNZDA,181604.456,12,09,2018,,");
    let mut p = Parser::new();
    let rs = p.parse_from_bytes(&wire);
    let zda = match rs[0].clone().unwrap() {
        ParseResult::ZDA(Some(z)) => z,
        _ => panic!("expected a ZDA record"),
    };
    assert_eq!(zda.offset_hours, None);
    assert_eq!(zda.offset_minutes, None);
}

#[test]
fn test_two_digit_year_pivot() {
    // Years 00-69 expand to the 2000s, 70-99 to the 1900s.
    let wire = frame("GPRMC,113650.0,A,5548.607,S,03739.387,W,000.01,255.6,210470,,,A");
    let mut p = Parser::new();
    let rs = p.parse_from_bytes(&wire);
    let rmc = match rs[0].clone().unwrap() {
        ParseResult::RMC(Some(r)) => r,
        _ => panic!("expected an RMC record"),
    };
    assert_eq!(rmc.datetime.date.year, 1970);
}
