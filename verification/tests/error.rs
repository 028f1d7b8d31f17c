use command_parser::ParseError;

#[test]
fn each_failure_has_its_text() {
    assert_eq!(ParseError::NotMatched.to_string(), "Commande inconnue");
    assert_eq!(
        ParseError::PartiallyNotMatched("misc").to_string(),
        "Groupe ou commande inconnu misc"
    );
    assert_eq!(ParseError::UnknownParameter("x").to_string(), "Paramètre x inconnu");
    assert_eq!(
        ParseError::MissingParameterValue("-x").to_string(),
        "Valeur du paramètre -x manquant"
    );
    assert_eq!(
        ParseError::ExpectedPath("-x").to_string(),
        "Groupe ou commande attendu après -x"
    );
    assert_eq!(
        ParseError::RequiredParameters("string1".to_string()).to_string(),
        "Paramètre string1 requis"
    );
    assert_eq!(ParseError::Todo.to_string(), "Unknown parser error");
}

#[test]
fn the_text_holds_the_payload_as_it_is() {
    assert_eq!(ParseError::UnknownParameter("").to_string(), "Paramètre  inconnu");
    assert_eq!(ParseError::ExpectedPath("").to_string(), "Groupe ou commande attendu après ");
    assert_eq!(ParseError::UnknownParameter("é à").to_string(), "Paramètre é à inconnu");
}

#[test]
fn failures_compare_by_kind_and_payload() {
    assert_eq!(ParseError::UnknownParameter("a"), ParseError::UnknownParameter("a"));
    assert_ne!(ParseError::UnknownParameter("a"), ParseError::UnknownParameter("b"));
    assert_ne!(ParseError::UnknownParameter("a"), ParseError::MissingParameterValue("a"));
}
