use simulator::protocol::{Request, RequestNoun, Response, ResponseError};

#[test]
fn decode_id() {
    assert_eq!(Request::decode(b"ID\r\n"), Ok(Request::Id));
    assert_eq!(Request::decode(b"ID\n"), Ok(Request::Id));
}

#[test]
fn decode_get_every_noun() {
    assert_eq!(Request::decode(b"GET RED_LED\r\n"), Ok(Request::Get(RequestNoun::RedLed)));
    assert_eq!(Request::decode(b"GET YELLOW_LED\r\n"), Ok(Request::Get(RequestNoun::YellowLed)));
    assert_eq!(Request::decode(b"GET GREEN_LED\r\n"), Ok(Request::Get(RequestNoun::GreenLed)));
    assert_eq!(Request::decode(b"GET SERVO\r\n"), Ok(Request::Get(RequestNoun::Servo)));
    assert_eq!(Request::decode(b"GET TEMP_AND_HUM\r\n"), Ok(Request::Get(RequestNoun::TempAndHum)));
    assert_eq!(Request::decode(b"GET SELF_TEST\r\n"), Ok(Request::Get(RequestNoun::SelfTest)));
}

#[test]
fn decode_set() {
    assert_eq!(
        Request::decode(b"SET RED_LED 500\r\n"),
        Ok(Request::SetValue(RequestNoun::RedLed, 500))
    );
    assert_eq!(
        Request::decode(b"SET SERVO -5\r\n"),
        Ok(Request::SetValue(RequestNoun::Servo, -5))
    );
    assert_eq!(
        Request::decode(b"SET SERVO +10\r\n"),
        Ok(Request::SetValue(RequestNoun::Servo, 10))
    );
    assert_eq!(
        Request::decode(b"SET SELF_TEST 1\r\n"),
        Ok(Request::SetValue(RequestNoun::SelfTest, 1))
    );
    assert_eq!(
        Request::decode(b"SET SELF_TEST 0\r\n"),
        Ok(Request::SetValue(RequestNoun::SelfTest, 0))
    );
}

#[test]
fn decode_errors() {
    assert_eq!(Request::decode(b"FOO\r\n"), Err(ResponseError::BadVerb));
    assert_eq!(Request::decode(b"GET BOGUS\r\n"), Err(ResponseError::BadNoun));
    assert_eq!(Request::decode(b"SET SERVO abc\r\n"), Err(ResponseError::BadValue));
    // TempAndHum is not settable; rejected before the value is even looked at
    assert_eq!(Request::decode(b"SET TEMP_AND_HUM 5\r\n"), Err(ResponseError::BadNoun));
    assert_eq!(Request::decode(b"ID EXTRA\r\n"), Err(ResponseError::BadNoun));
    assert_eq!(Request::decode(b"GET\r\n"), Err(ResponseError::BadNoun));
    assert_eq!(Request::decode(b"GET SERVO 3\r\n"), Err(ResponseError::BadValue));
    assert_eq!(Request::decode(b"SET SERVO\r\n"), Err(ResponseError::BadValue));
    assert_eq!(Request::decode(b"\r\n"), Err(ResponseError::BadSyntax));
    assert_eq!(Request::decode(b"\n"), Err(ResponseError::BadSyntax));
    // no line terminator at all: the syntax never matches
    assert_eq!(Request::decode(b"GET SERVO"), Err(ResponseError::BadSyntax));
}

#[test]
fn decode_value_is_greedy() {
    // trailing garbage folds into the value capture and fails the number
    assert_eq!(Request::decode(b"SET RED_LED 1 2\r\n"), Err(ResponseError::BadValue));
    // an overflowing number is a bad value, not a panic
    assert_eq!(
        Request::decode(b"SET RED_LED 99999999999999999999\r\n"),
        Err(ResponseError::BadValue)
    );
    assert_eq!(
        Request::decode(b"SET RED_LED 9223372036854775807\r\n"),
        Ok(Request::SetValue(RequestNoun::RedLed, i64::MAX))
    );
    assert_eq!(
        Request::decode(b"SET RED_LED -9223372036854775808\r\n"),
        Ok(Request::SetValue(RequestNoun::RedLed, i64::MIN))
    );
}

#[test]
fn decode_tokenizer_quirks() {
    // the match may start after leading spaces
    assert_eq!(Request::decode(b" ID\n"), Ok(Request::Id));
    // a single trailing space after one token leaves no match on that
    // line at all
    assert_eq!(Request::decode(b"ID \n"), Err(ResponseError::BadSyntax));
    // with two tokens a trailing space folds both into the value capture
    assert_eq!(Request::decode(b"GET SERVO \n"), Err(ResponseError::BadNoun));
    // an unmatched first line falls through to the next one
    assert_eq!(Request::decode(b"X \nGET SERVO\n"), Ok(Request::Get(RequestNoun::Servo)));
    // a carriage return in the middle restricts the match to what follows
    assert_eq!(Request::decode(b"GE\rT SERVO\r\n"), Err(ResponseError::BadVerb));
    // two spaces after ID leave the noun group empty, so ID still matches
    assert_eq!(Request::decode(b"ID  x\n"), Ok(Request::Id));
}

#[test]
fn encode_success_responses() {
    assert_eq!(
        Response::Id(String::from("ESP8266_WEMOS_D1MINI")).encode(),
        b"OK ESP8266_WEMOS_D1MINI\r\n".to_vec()
    );
    assert_eq!(Response::Value(1023).encode(), b"OK 1023\r\n".to_vec());
    assert_eq!(Response::Value(0).encode(), b"OK 0\r\n".to_vec());
    assert_eq!(Response::Value(-42).encode(), b"OK -42\r\n".to_vec());
    assert_eq!(
        Response::TempAndHum(String::from("OK"), 2055, 4510).encode(),
        b"OK OK 20.55 45.10\r\n".to_vec()
    );
    assert_eq!(
        Response::TempAndHum(String::from("OK"), 2000, 5000).encode(),
        b"OK OK 20.00 50.00\r\n".to_vec()
    );
    assert_eq!(Response::SelfTest(true, 40).encode(), b"OK 1 40\r\n".to_vec());
    assert_eq!(Response::SelfTest(false, 0).encode(), b"OK 0 0\r\n".to_vec());
}

#[test]
fn encode_error_responses() {
    assert_eq!(
        Response::Error(ResponseError::BadSyntax).encode(),
        b"ERR BAD_SYNTAX\r\n".to_vec()
    );
    assert_eq!(Response::Error(ResponseError::BadVerb).encode(), b"ERR BAD_VERB\r\n".to_vec());
    assert_eq!(Response::Error(ResponseError::BadNoun).encode(), b"ERR BAD_NOUN\r\n".to_vec());
    assert_eq!(Response::Error(ResponseError::BadValue).encode(), b"ERR BAD_VALUE\r\n".to_vec());
}

#[test]
fn error_wire_codes() {
    assert_eq!(ResponseError::BadSyntax.code(), "BAD_SYNTAX");
    assert_eq!(ResponseError::BadVerb.code(), "BAD_VERB");
    assert_eq!(ResponseError::BadNoun.code(), "BAD_NOUN");
    assert_eq!(ResponseError::BadValue.code(), "BAD_VALUE");
}

#[test]
fn noun_sets() {
    assert!(RequestNoun::RedLed.is_settable());
    assert!(RequestNoun::Servo.is_settable());
    assert!(RequestNoun::SelfTest.is_settable());
    assert!(!RequestNoun::TempAndHum.is_settable());
    assert!(RequestNoun::TempAndHum.is_gettable());
    assert_eq!(RequestNoun::from_bytes(b"SERVO"), Ok(RequestNoun::Servo));
    assert_eq!(RequestNoun::from_bytes(b"servo"), Err(ResponseError::BadNoun));
}
