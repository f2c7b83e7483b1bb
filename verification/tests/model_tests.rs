use wot_api::error::{ClientError, Error};
use wot_api::model::{
    CurrentMap, CurrentMaps, CurrentServer, CurrentServers, GetCurrentMapsQuery,
    ReportPlayedMapBody,
};
use wot_api::validation::{Validate, ValidForm, ValidJson, ValidQuery};

fn body(server: &str, bottom: i16, top: i16) -> ReportPlayedMapBody {
    ReportPlayedMapBody {
        server: server.to_string(),
        map: "Karelia".to_string(),
        mode: "Standard".to_string(),
        bottom_tier: bottom,
        top_tier: top,
    }
}

#[test]
fn valid_body_passes_both_gates() {
    let r = ValidJson::from_decoded(Ok(body("EU1", 4, 6))).expect("passes");
    assert_eq!(r.0.map, "Karelia");
}

#[test]
fn out_of_range_field_is_a_validation_error_not_a_schema_error() {
    let r = ValidJson::from_decoded(Ok(body("EU1", 5, 11)));
    match r {
        Err(Error::ClientError(ClientError::InvalidBody(e))) => {
            assert_eq!(e.errors.len(), 2);
            assert_eq!(e.errors[0].field, "top_tier");
            assert_eq!(e.errors[0].code, "range");
            assert_eq!(e.errors[1].field, "__all__");
            assert_eq!(e.errors[1].code, "Invalid tier spread.");
        },
        _ => panic!("expected a validation error"),
    }
}

#[test]
fn schema_failure_is_distinguishable_from_validation_failure() {
    let r: Result<ValidJson<ReportPlayedMapBody>, Error> =
        ValidJson::from_decoded(Err("missing field `map`".to_string()));
    match r {
        Err(Error::ClientError(ClientError::InvalidBodySchema(msg))) => {
            assert_eq!(msg, "missing field `map`");
        },
        _ => panic!("expected a schema error"),
    }
}

#[test]
fn tier_spread_rule_is_enforced() {
    assert!(body("EU1", 4, 6).validate().is_ok());
    assert!(body("EU1", 4, 7).validate().is_err());
    assert!(body("EU1", 6, 4).validate().is_err());
    assert!(body("EU1", 10, 10).validate().is_ok());
}

#[test]
fn server_length_is_bounded() {
    assert!(body("0123456789", 4, 5).validate().is_ok());
    let e = body("01234567890", 4, 5).validate().unwrap_err();
    assert_eq!(e.errors[0].field, "server");
    assert_eq!(e.errors[0].code, "length");
}

#[test]
fn query_tier_range_must_be_ordered() {
    let q = GetCurrentMapsQuery { server: "EU1".to_string(), min_tier: 4, max_tier: 6 };
    assert!(ValidQuery::from_decoded(Ok(q)).is_ok());
    let q = GetCurrentMapsQuery { server: "EU1".to_string(), min_tier: 7, max_tier: 6 };
    match ValidQuery::from_decoded(Ok(q)) {
        Err(Error::ClientError(ClientError::InvalidQuery(e))) => {
            assert_eq!(e.errors[0].field, "__all__");
            assert_eq!(e.errors[0].code, "Invalid tier range.");
        },
        _ => panic!("expected a validation error"),
    }
    let r: Result<ValidQuery<GetCurrentMapsQuery>, Error> =
        ValidQuery::from_decoded(Err("bad query".to_string()));
    assert!(matches!(
        r,
        Err(Error::ClientError(ClientError::InvalidQuerySchema(_)))
    ));
}

#[test]
fn form_gate_uses_body_errors() {
    let r: Result<ValidForm<ReportPlayedMapBody>, Error> =
        ValidForm::from_decoded(Err("bad form".to_string()));
    assert!(matches!(
        r,
        Err(Error::ClientError(ClientError::InvalidBodySchema(_)))
    ));
    assert!(ValidForm::from_decoded(Ok(body("EU1", 4, 5))).is_ok());
}

fn map_row(map: &str, mode: &str, count: i64) -> CurrentMap {
    CurrentMap { map: map.to_string(), mode: mode.to_string(), count: Some(count) }
}

#[test]
fn maps_group_by_mode_in_first_appearance_order() {
    let rows = vec![
        map_row("Karelia", "Standard", 3),
        map_row("Mines", "Encounter", 1),
        map_row("Prokhorovka", "Standard", 2),
    ];
    let grouped = CurrentMaps::from_rows(rows);
    assert_eq!(grouped.modes.len(), 2);
    assert_eq!(grouped.modes[0].0, "Standard");
    assert_eq!(grouped.modes[0].1.len(), 2);
    assert_eq!(grouped.modes[0].1[0].map, "Karelia");
    assert_eq!(grouped.modes[0].1[1].map, "Prokhorovka");
    assert_eq!(grouped.modes[0].1[1].count, Some(2));
    assert_eq!(grouped.modes[1].0, "Encounter");
    assert_eq!(grouped.modes[1].1.len(), 1);
    assert_eq!(grouped.modes[1].1[0].map, "Mines");
}

#[test]
fn empty_rows_group_to_nothing() {
    let grouped = CurrentMaps::from_rows(Vec::new());
    assert_eq!(grouped.modes.len(), 0);
}

#[test]
fn servers_group_by_region() {
    let rows = vec![
        CurrentServer { name: "EU1".to_string(), region: "EU".to_string(), count: Some(5) },
        CurrentServer { name: "NA1".to_string(), region: "NA".to_string(), count: None },
        CurrentServer { name: "EU2".to_string(), region: "EU".to_string(), count: Some(1) },
    ];
    let grouped = CurrentServers::from_rows(rows);
    assert_eq!(grouped.regions.len(), 2);
    assert_eq!(grouped.regions[0].0, "EU");
    assert_eq!(grouped.regions[0].1.len(), 2);
    assert_eq!(grouped.regions[0].1[1].name, "EU2");
    assert_eq!(grouped.regions[1].0, "NA");
    assert_eq!(grouped.regions[1].1[0].count, None);
}
