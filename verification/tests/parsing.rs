use nmea0183::common::Decimal;
use nmea0183::coords;
use nmea0183::coords::Course;
use nmea0183::coords::Hemisphere;
use nmea0183::coords::Latitude;
use nmea0183::coords::Longitude;
use nmea0183::datetime;
use nmea0183::satellite;
use nmea0183::FixType;
use nmea0183::GPSQuality;
use nmea0183::JammingStatus;
use nmea0183::Mode;
use nmea0183::GGA;
use nmea0183::GLL;
use nmea0183::PMTKSPF;
use nmea0183::RMC;
use nmea0183::VTG;
use nmea0183::{ParseResult, Parser, Source};

fn dec(neg: bool, mantissa: u64, scale: u32) -> Decimal {
    Decimal::new(neg, mantissa, scale)
}

#[test]
fn test_too_long_sentence() {
    let line = "$01234567890123456789012345678901234567890123456789012345678901234567890123456789";
    let mut caught_error = false;
    for result in Parser::new_strict().parse_from_bytes(line.as_bytes()) {
        match result {
            Ok(_) => continue,
            Err(e) => {
                if e.message() == "NMEA sentence is too long!" {
                    caught_error = true;
                    break;
                } else {
                    panic!("Unexpected error caught in test!");
                }
            }
        }
    }
    assert!(caught_error);
}

#[test]
fn test_too_long_sentence_non_strict() {
    let line = "$01234567890123456789012345678901234567890123456789012345678901234567890123456789012345678901234567890012345678901234567890";
    let mut caught_error = false;
    for result in Parser::new().parse_from_bytes(line.as_bytes()) {
        match result {
            Ok(_) => continue,
            Err(e) => {
                if e.message() == "NMEA sentence is too long!" {
                    caught_error = true;
                    break;
                } else {
                    panic!("Unexpected error caught in test!");
                }
            }
        }
    }
    assert!(caught_error);
}

#[test]
fn test_correct_but_unsupported_source() {
    let mut p = Parser::new();
    let sentence = b"$LCVTG,089.0,T,,,15.2,N,,*67\r\n";
    let mut parsed = false;
    for b in sentence.iter() {
        let r = p.parse_from_byte(*b);
        if r.is_some() {
            let err = r.unwrap().unwrap_err();
            assert_eq!(err.message(), "Source is not supported!");
            parsed = true;
            break;
        }
    }
    assert!(parsed);
}

#[test]
fn test_correct_but_unsupported_nmea_block() {
    let mut p = Parser::new();
    let sentence = b"$GPZZZ,,,,,,,,,*61\r\n";
    let mut parsed = false;
    for b in sentence.iter() {
        let r = p.parse_from_byte(*b);
        if r.is_some() {
            let err = r.unwrap().unwrap_err();
            assert_eq!(err.message(), "Unsupported sentence type.");
            parsed = true;
            break;
        }
    }
    assert!(parsed);
}

fn expected_vtg() -> VTG {
    VTG {
        source: Source::GPS,
        course: Some(Course::from(dec(false, 890, 1))),
        magnetic: None,
        speed: coords::Speed::from_knots(dec(false, 152, 1)),
        mode: Mode::Autonomous,
    }
}

#[test]
fn test_stream_slice() {
    let mut p = Parser::new();
    let sentence = b"0,T,,,15.2,N,,,A*12\r\n$GPVTG,089.0,T,,,15.2,N,,,A*12\r\n$GPVTG,089.0,T,,,15.2,N,,,A*12\r\n$GPVTG,089.0,T,";
    let mut parse_count = 0;
    for b in sentence.iter() {
        let r = p.parse_from_byte(*b);
        if r.is_some() {
            assert_eq!(r.unwrap(), Ok(ParseResult::VTG(Some(expected_vtg()))));
            parse_count += 1;
        }
    }
    assert_eq!(parse_count, 2);
}

#[test]
fn test_correct_vtg() {
    let mut p = Parser::new();
    let sentence = b"$GPVTG,089.0,T,,,15.2,N,,,A*12\r\n";
    let mut parsed = false;
    for b in sentence.iter() {
        let r = p.parse_from_byte(*b);
        if r.is_some() {
            assert_eq!(r.unwrap(), Ok(ParseResult::VTG(Some(expected_vtg()))));
            parsed = true;
            break;
        }
    }
    assert!(parsed);
}

fn expected_rmc() -> RMC {
    RMC {
        source: Source::GPS,
        datetime: datetime::DateTime {
            date: datetime::Date {
                day: 20,
                month: 9,
                year: 2006,
            },
            time: datetime::Time {
                hours: 12,
                minutes: 55,
                seconds: dec(false, 4049, 3),
            },
        },
        latitude: Latitude {
            degrees: 55,
            minutes: 42,
            seconds: dec(false, 14334, 3),
            hemisphere: Hemisphere::North,
        },
        longitude: Longitude {
            degrees: 37,
            minutes: 41,
            seconds: dec(false, 36378, 3),
            hemisphere: Hemisphere::East,
        },
        speed: coords::Speed::from_knots(dec(false, 6, 2)),
        course: Some(Course::from(dec(false, 2582, 2))),
        magnetic: None,
        mode: Mode::Autonomous,
    }
}

#[test]
fn test_correct_rmc() {
    let mut p = Parser::new();
    let sentence = b"$GPRMC,125504.049,A,5542.2389,N,03741.6063,E,0.06,25.82,200906,,,A*56\r\n";
    let mut parsed = false;
    for b in sentence.iter() {
        let r = p.parse_from_byte(*b);
        if r.is_some() {
            assert_eq!(r.unwrap(), Ok(ParseResult::RMC(Some(expected_rmc()))));
            parsed = true;
            break;
        }
    }
    assert!(parsed);
}

#[test]
fn test_correct_gga() {
    let mut p = Parser::new();
    let sentence = b"$GPGGA,145659.00,5956.695396,N,03022.454999,E,2,07,0.6,9.0,M,18.0,M,,*62\r\n";
    let mut parsed = false;
    for b in sentence.iter() {
        let r = p.parse_from_byte(*b);
        if r.is_some() {
            assert_eq!(
                r.unwrap(),
                Ok(ParseResult::GGA(Some(GGA {
                    source: Source::GPS,
                    time: datetime::Time {
                        hours: 14,
                        minutes: 56,
                        seconds: dec(false, 59, 0),
                    },
                    latitude: Latitude {
                        degrees: 59,
                        minutes: 56,
                        seconds: dec(false, 4172376, 5),
                        hemisphere: Hemisphere::North,
                    },
                    longitude: Longitude {
                        degrees: 30,
                        minutes: 22,
                        seconds: dec(false, 2729994, 5),
                        hemisphere: Hemisphere::East,
                    },
                    gps_quality: GPSQuality::DGPS,
                    sat_in_use: 7,
                    hdop: dec(false, 6, 1),
                    altitude: Some(coords::Altitude {
                        meters: dec(false, 9, 0)
                    }),
                    geoidal_separation: Some(dec(false, 18, 0)),
                    age_dgps: None,
                    dgps_station_id: None,
                })))
            );
            parsed = true;
            break;
        }
    }
    assert!(parsed);
}

#[test]
fn test_correct_gga_without_altitude() {
    let mut p = Parser::new();
    let sentence = b"$GPGGA,160545,5008.6263,N,01422.4224,E,1,03,3.6,,M,45.0,M,,*61\r\n";
    let mut parsed = false;
    for b in sentence.iter() {
        let r = p.parse_from_byte(*b);
        if r.is_some() {
            assert_eq!(
                r.unwrap(),
                Ok(ParseResult::GGA(Some(GGA {
                    source: Source::GPS,
                    time: datetime::Time {
                        hours: 16,
                        minutes: 5,
                        seconds: dec(false, 45, 0),
                    },
                    latitude: Latitude {
                        degrees: 50,
                        minutes: 8,
                        seconds: dec(false, 37578, 3),
                        hemisphere: Hemisphere::North,
                    },
                    longitude: Longitude {
                        degrees: 14,
                        minutes: 22,
                        seconds: dec(false, 25344, 3),
                        hemisphere: Hemisphere::East,
                    },
                    gps_quality: GPSQuality::GPS,
                    sat_in_use: 3,
                    hdop: dec(false, 36, 1),
                    altitude: None,
                    geoidal_separation: Some(dec(false, 45, 0)),
                    age_dgps: None,
                    dgps_station_id: None,
                })))
            );
            parsed = true;
            break;
        }
    }
    assert!(parsed);
}

#[test]
fn test_correct_rmc2() {
    let mut p = Parser::new();
    let sentence = b"$GPRMC,113650.0,A,5548.607,S,03739.387,W,000.01,255.6,210403,08.7,E*66\r\n";
    let mut parsed = false;
    for b in sentence.iter() {
        let r = p.parse_from_byte(*b);
        if r.is_some() {
            assert_eq!(
                r.unwrap(),
                Ok(ParseResult::RMC(Some(RMC {
                    source: Source::GPS,
                    datetime: datetime::DateTime {
                        date: datetime::Date {
                            day: 21,
                            month: 4,
                            year: 2003,
                        },
                        time: datetime::Time {
                            hours: 11,
                            minutes: 36,
                            seconds: dec(false, 50, 0),
                        },
                    },
                    latitude: Latitude {
                        degrees: 55,
                        minutes: 48,
                        seconds: dec(false, 3642, 2),
                        hemisphere: Hemisphere::South,
                    },
                    longitude: Longitude {
                        degrees: 37,
                        minutes: 39,
                        seconds: dec(false, 2322, 2),
                        hemisphere: Hemisphere::West,
                    },
                    speed: coords::Speed::from_knots(dec(false, 1, 2)),
                    course: Some(Course::from(dec(false, 2556, 1))),
                    magnetic: Some(Course::from(dec(false, 2469, 1))),
                    mode: Mode::Autonomous,
                })))
            );
            parsed = true;
            break;
        }
    }
    assert!(parsed);
}

#[test]
fn test_correct_gll() {
    let mut p = Parser::new();
    let b = b"$GPGLL,4916.45,N,12311.12,W,225444,A*31\r\n";
    let rs = p.parse_from_bytes(&b[..]);
    assert_eq!(rs.len(), 1);
    assert_eq!(
        rs[0],
        Ok(ParseResult::GLL(Some(GLL {
            source: Source::GPS,
            time: datetime::Time {
                hours: 22,
                minutes: 54,
                seconds: dec(false, 44, 0),
            },
            latitude: Latitude {
                degrees: 49,
                minutes: 16,
                seconds: dec(false, 27, 0),
                hemisphere: Hemisphere::North,
            },
            longitude: Longitude {
                degrees: 123,
                minutes: 11,
                seconds: dec(false, 72, 1),
                hemisphere: Hemisphere::West,
            },
            mode: Mode::Autonomous,
        })))
    );
}

#[test]
fn test_correct_gsv() {
    let mut p = Parser::new();
    let b = b"$GPGSV,8,1,25,21,44,141,47,15,14,049,44,6,31,255,46,3,25,280,44*75\r\n";
    let rs = p.parse_from_bytes(&b[..]);
    assert_eq!(rs.len(), 1);
    let gsv = match rs[0].clone().unwrap() {
        ParseResult::GSV(Some(gsv)) => gsv,
        _ => {
            panic!("Unexpected ParseResult variant while parsing GSV data.");
        }
    };
    assert_eq!(gsv.source, Source::GPS);
    assert_eq!(gsv.total_messages_number, 8);
    assert_eq!(gsv.message_number, 1);
    assert_eq!(gsv.sat_in_view, 25);

    assert_eq!(
        gsv.get_in_view_satellites(),
        [
            satellite::Satellite {
                prn: 21,
                elevation: 44,
                azimuth: 141,
                snr: Some(47),
            },
            satellite::Satellite {
                prn: 15,
                elevation: 14,
                azimuth: 49,
                snr: Some(44),
            },
            satellite::Satellite {
                prn: 6,
                elevation: 31,
                azimuth: 255,
                snr: Some(46),
            },
            satellite::Satellite {
                prn: 3,
                elevation: 25,
                azimuth: 280,
                snr: Some(44),
            }
        ],
    )
}

#[test]
fn test_correct_gsv2() {
    let mut p = Parser::new();
    let b = b"$GLGSV,8,7,25,68,37,284,50*5C\r\n";
    let rs = p.parse_from_bytes(&b[..]);
    assert_eq!(rs.len(), 1);
    let gsv = match rs[0].clone().unwrap() {
        ParseResult::GSV(Some(gsv)) => gsv,
        _ => {
            panic!("Unexpected ParseResult variant while parsing GSV data.");
        }
    };
    assert_eq!(gsv.source, Source::GLONASS);
    assert_eq!(gsv.total_messages_number, 8);
    assert_eq!(gsv.message_number, 7);
    assert_eq!(gsv.sat_in_view, 25);

    assert_eq!(
        gsv.get_in_view_satellites(),
        [satellite::Satellite {
            prn: 68,
            elevation: 37,
            azimuth: 284,
            snr: Some(50),
        }],
    )
}

#[test]
fn test_correct_pmtk() {
    let mut p = Parser::new();
    let b = b"$PMTKSPF,2*59\r\n";
    let rs = p.parse_from_bytes(&b[..]);
    assert_eq!(rs.len(), 1);
    assert_eq!(
        rs[0],
        Ok(ParseResult::PMTK(Some(PMTKSPF {
            source: Source::MTK,
            jamming_status: JammingStatus::Warning,
        })))
    );
}

#[test]
fn test_correct_gsa() {
    let mut p = Parser::new();
    let b = b"$GNGSA,A,3,21,5,29,25,12,10,26,2,,,,,1.2,0.7,1.0*27\r\n";
    let rs = p.parse_from_bytes(&b[..]);
    assert_eq!(rs.len(), 1);
    let gsa = match rs[0].clone().unwrap() {
        ParseResult::GSA(Some(gsa)) => gsa,
        _ => {
            panic!("Unexpected ParseResult variant while parsing GSA data.");
        }
    };
    assert_eq!(gsa.source, Source::GNSS);
    assert_eq!(gsa.mode, Mode::Autonomous);
    assert_eq!(gsa.fix_type, FixType::Fix3D);
    assert_eq!(gsa.get_fix_satellites_prn(), [21, 5, 29, 25, 12, 10, 26, 2]);
    assert_eq!(gsa.pdop, dec(false, 12, 1));
    assert_eq!(gsa.hdop, dec(false, 7, 1));
    assert_eq!(gsa.vdop, dec(false, 1, 0));
}

#[test]
fn test_correct_zda() {
    let mut p = Parser::new();
    let b = b"$GNZDA,181604.456,12,09,2018,-01,15*6C\r\n";
    let rs = p.parse_from_bytes(&b[..]);
    assert_eq!(rs.len(), 1);
    let zda = match rs[0].clone().unwrap() {
        ParseResult::ZDA(Some(zda)) => zda,
        _ => {
            panic!("Unexpected ParseResult variant while parsing GSA data.");
        }
    };
    assert_eq!(zda.source, Source::GNSS);
    assert_eq!(
        zda.time,
        datetime::Time {
            hours: 18,
            minutes: 16,
            seconds: dec(false, 4456, 3),
        }
    );
    assert_eq!(zda.day, 12);
    assert_eq!(zda.month, 9);
    assert_eq!(zda.year, 2018);
    assert_eq!(zda.offset_hours, Some(-1));
    assert_eq!(zda.offset_minutes, Some(15));
}

#[test]
fn test_correct_zda_2() {
    let mut p = Parser::new();
    let b = b"$GNZDA,181604.456,12,09,2018,,*44\r\n";
    let rs = p.parse_from_bytes(&b[..]);
    assert_eq!(rs.len(), 1);
    let zda = match rs[0].clone().unwrap() {
        ParseResult::ZDA(Some(zda)) => zda,
        _ => {
            panic!("Unexpected ParseResult variant while parsing GSA data.");
        }
    };
    assert_eq!(zda.source, Source::GNSS);
    assert_eq!(
        zda.time,
        datetime::Time {
            hours: 18,
            minutes: 16,
            seconds: dec(false, 4456, 3),
        }
    );
    assert_eq!(zda.day, 12);
    assert_eq!(zda.month, 9);
    assert_eq!(zda.year, 2018);
    assert_eq!(zda.offset_hours, None);
    assert_eq!(zda.offset_minutes, None);
}

#[test]
fn test_parser_iterator() {
    let mut p = Parser::new();
    let b = b"$GPRMC,125504.049,A,5542.2389,N,03741.6063,E,0.06,25.82,200906,,,A*56\r\n";
    {
        let rs = p.parse_from_bytes(&b[..]);
        assert_eq!(rs.len(), 1);
        assert_eq!(rs[0], Ok(ParseResult::RMC(Some(expected_rmc()))));
    }
    let b1 = b"$GPRMC,125504.049,A,5542.2389,N";
    {
        let rs = p.parse_from_bytes(&b1[..]);
        assert!(rs.is_empty());
    }
    let b2 = b",03741.6063,E,0.06,25.82,200906,,,";
    {
        let rs = p.parse_from_bytes(&b2[..]);
        assert!(rs.is_empty());
    }
    let b3 = b"A*56\r\n";
    {
        let rs = p.parse_from_bytes(&b3[..]);
        assert_eq!(rs.len(), 1);
        assert_eq!(rs[0], Ok(ParseResult::RMC(Some(expected_rmc()))));
    }
}
