use asn1chef::error::{AstElement, Loc};
use asn1chef::time::{Date, DateTime, TimeOfDay, UTCTime, UTCTimeZone, UTCTimeZoneSign};

fn lit(s: &str) -> AstElement<&[u8]> {
    AstElement::new(s.as_bytes(), Loc::at(0))
}

#[test]
fn test_utc_time_parse() {
    assert_eq!(
        UTCTime::parse(&lit("8804152030Z")).unwrap(),
        UTCTime {
            year: 88,
            month: 4,
            day: 15,
            hour: 20,
            minute: 30,
            second: None,
            tz: UTCTimeZone::Z,
        }
    );
    assert_eq!(
        UTCTime::parse(&lit("880415203022Z")).unwrap(),
        UTCTime {
            year: 88,
            month: 4,
            day: 15,
            hour: 20,
            minute: 30,
            second: Some(22),
            tz: UTCTimeZone::Z,
        }
    );
    assert_eq!(
        UTCTime::parse(&lit("8804152030-0600")).unwrap(),
        UTCTime {
            year: 88,
            month: 4,
            day: 15,
            hour: 20,
            minute: 30,
            second: None,
            tz: UTCTimeZone::Offset {
                sign: UTCTimeZoneSign::Minus,
                hour: 6,
                minute: 0
            },
        }
    );
    assert_eq!(
        UTCTime::parse(&lit("8804152030+1630")).unwrap(),
        UTCTime {
            year: 88,
            month: 4,
            day: 15,
            hour: 20,
            minute: 30,
            second: None,
            tz: UTCTimeZone::Offset {
                sign: UTCTimeZoneSign::Plus,
                hour: 16,
                minute: 30
            },
        }
    );
}

#[test]
fn test_date_parse() {
    assert_eq!(
        Date::parse(&lit("2012-12-21")).unwrap(),
        Date {
            year: 2012,
            month: 12,
            day: 21,
        }
    );
    assert_eq!(
        Date::parse(&lit("0000-01-01")).unwrap(),
        Date {
            year: 0,
            month: 1,
            day: 1,
        }
    );
    assert_eq!(
        Date::parse(&lit("9999-12-31")).unwrap(),
        Date {
            year: 9999,
            month: 12,
            day: 31,
        }
    );
    assert!(Date::parse(&lit("2012-00-21")).is_err());
    assert!(Date::parse(&lit("2012-13-21")).is_err());
    assert!(Date::parse(&lit("2012-12-00")).is_err());
    assert!(Date::parse(&lit("2012-12-32")).is_err());
}

#[test]
fn test_time_of_day_parse() {
    assert_eq!(
        TimeOfDay::parse(&lit("06:35:14")).unwrap(),
        TimeOfDay {
            hour: 6,
            minute: 35,
            second: 14,
        }
    );
    assert_eq!(
        TimeOfDay::parse(&lit("00:00:00")).unwrap(),
        TimeOfDay {
            hour: 0,
            minute: 0,
            second: 0,
        }
    );
    assert_eq!(
        TimeOfDay::parse(&lit("23:59:59")).unwrap(),
        TimeOfDay {
            hour: 23,
            minute: 59,
            second: 59,
        }
    );
    assert!(TimeOfDay::parse(&lit("24:00:00")).is_err());
    assert!(TimeOfDay::parse(&lit("00:60:00")).is_err());
    assert!(TimeOfDay::parse(&lit("00:00:60")).is_err());
}

#[test]
fn test_date_time_parse() {
    assert_eq!(
        DateTime::parse(&lit("2012-12-21T06:35:14")).unwrap(),
        DateTime {
            date: Date {
                year: 2012,
                month: 12,
                day: 21,
            },
            time_of_day: TimeOfDay {
                hour: 6,
                minute: 35,
                second: 14,
            }
        }
    );
}

#[test]
fn utc_time_accepted_lengths() {
    assert!(UTCTime::parse(&lit("8804152030Z")).is_ok());
    assert!(UTCTime::parse(&lit("880415203022Z")).is_ok());
    assert!(UTCTime::parse(&lit("8804152030-0600")).is_ok());
    assert!(UTCTime::parse(&lit("880415203022+0130")).is_ok());
}

#[test]
fn utc_time_rejected_lengths() {
    assert!(UTCTime::parse(&lit("880415203Z")).is_err());
    assert!(UTCTime::parse(&lit("88041520302Z")).is_err());
    assert!(UTCTime::parse(&lit("88041520302-0600")).is_err());
    assert!(UTCTime::parse(&lit("8804152030-06001")).is_err());
    assert!(UTCTime::parse(&lit("8804152030220-0600")).is_err());
    assert!(UTCTime::parse(&lit("8804152030220Z")).is_err());
    assert!(UTCTime::parse(&lit("")).is_err());
}

#[test]
fn utc_time_field_ranges() {
    assert!(UTCTime::parse(&lit("8813152030Z")).is_err());
    assert!(UTCTime::parse(&lit("8804322030Z")).is_err());
    assert_eq!(UTCTime::parse(&lit("8804152400Z")).unwrap().hour, 24);
    assert!(UTCTime::parse(&lit("8804152500Z")).is_err());
    assert!(UTCTime::parse(&lit("8804152060Z")).is_err());
    assert!(UTCTime::parse(&lit("8804152030-2400")).is_err());
    assert!(UTCTime::parse(&lit("8804152030-0060")).is_err());
    assert!(UTCTime::parse(&lit("8804152030*0600")).is_err());
    assert!(UTCTime::parse(&lit("88041520a0Z")).is_err());
}

#[test]
fn utc_time_round_trip() {
    let t = UTCTime::parse(&lit("8804152030-0600")).unwrap();
    assert_eq!(t.to_ber_string(), "8804152030-0600");
    assert_eq!(t.to_ber_string().len(), 15);
    for s in ["8804152030Z", "880415203022Z", "0001010000+2359", "9912312459-0000"] {
        assert_eq!(UTCTime::parse(&lit(s)).unwrap().to_ber_string(), s);
    }
}

#[test]
fn date_boundaries() {
    assert_eq!(Date::parse(&lit("0000-06-15")).unwrap().year, 0);
    assert_eq!(Date::parse(&lit("9999-06-15")).unwrap().year, 9999);
    assert_eq!(Date::parse(&lit("2020-01-15")).unwrap().month, 1);
    assert_eq!(Date::parse(&lit("2020-12-15")).unwrap().month, 12);
    assert_eq!(Date::parse(&lit("2020-06-01")).unwrap().day, 1);
    assert_eq!(Date::parse(&lit("2020-06-31")).unwrap().day, 31);
    assert!(Date::parse(&lit("2020/06/15")).is_err());
    assert!(Date::parse(&lit("2020-06-150")).is_err());
    assert!(Date::parse(&lit("20x0-06-15")).is_err());
}

#[test]
fn time_of_day_boundaries() {
    assert_eq!(TimeOfDay::parse(&lit("00:59:59")).unwrap().minute, 59);
    assert_eq!(TimeOfDay::parse(&lit("23:00:00")).unwrap().hour, 23);
    assert!(TimeOfDay::parse(&lit("00-00-00")).is_err());
    assert!(TimeOfDay::parse(&lit("0:00:00")).is_err());
}

#[test]
fn date_time_rejections() {
    assert!(DateTime::parse(&lit("2012-12-21 06:35:14")).is_err());
    assert!(DateTime::parse(&lit("2012-13-21T06:35:14")).is_err());
    assert!(DateTime::parse(&lit("2012-12-21T24:35:14")).is_err());
    assert!(DateTime::parse(&lit("2012-12-21T06:35")).is_err());
}

#[test]
fn canonical_text_round_trips() {
    for s in ["2012-12-21", "0000-01-01", "9999-12-31"] {
        assert_eq!(Date::parse(&lit(s)).unwrap().to_ber_string(), s);
    }
    for s in ["06:35:14", "00:00:00", "23:59:59"] {
        assert_eq!(TimeOfDay::parse(&lit(s)).unwrap().to_ber_string(), s);
    }
    let s = "2012-12-21T06:35:14";
    assert_eq!(DateTime::parse(&lit(s)).unwrap().to_ber_string(), s);
}

#[test]
fn serializers_pad_with_zeros() {
    let d = Date { year: 7, month: 3, day: 9 };
    assert_eq!(d.to_ber_string(), "0007-03-09");
    let t = TimeOfDay { hour: 1, minute: 2, second: 3 };
    assert_eq!(t.to_ber_string(), "01:02:03");
}

#[test]
fn errors_point_at_the_literal() {
    let s = AstElement::new("2012-13-21".as_bytes(), Loc::new(7, 10));
    assert_eq!(Date::parse(&s).unwrap_err().loc, Loc::new(7, 10));
    let s = AstElement::new("8804152030".as_bytes(), Loc::new(3, 10));
    assert_eq!(UTCTime::parse(&s).unwrap_err().loc, Loc::new(3, 10));
}
