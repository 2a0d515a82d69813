use egml_core::model::base::AsAbstractGml;
use egml_io::errors::ConversionError;
use egml_io::errors::DeserializeError;
use egml_io::errors::ParseError;
use egml_io::parse_multi_surface;

#[test]
fn parsing_multi_surface() {
    let source_text = "<gml:MultiSurface gml:id=\"UUID_6b33ecfa-6e08-4e8e-a4b5-e1d06540faf0\">
              <gml:surfaceMember>
                <gml:Polygon gml:id=\"UUID_efb8f6a5-82fa-4b21-8709-c1d93ed1e595\">
                  <gml:exterior>
                    <gml:LinearRing>
                      <gml:posList srsDimension=\"3\">678009.7116291433 5403638.313338383 417.3480034550211 678012.5609078613 5403634.960884141 417.34658523466385 678013.7892528991 5403636.004867206 417.51938733855997 678010.9399743223 5403639.357321232 417.5208051908512 678009.7116291433 5403638.313338383 417.3480034550211</gml:posList>
                    </gml:LinearRing>
                  </gml:exterior>
                </gml:Polygon>
              </gml:surfaceMember>
            </gml:MultiSurface>";

    let _result = parse_multi_surface(source_text).unwrap();
}

#[test]
fn parsing_multi_surface_with_duplicate_elements() {
    let source_text = "<gml:MultiSurface srsName=\"EPSG:25832\" srsDimension=\"3\">
              <gml:surfaceMember>
                <gml:Polygon gml:id=\"4018133_PG.3nRTCd4XPu47PsAAUyNv\">
                  <gml:exterior>
                    <gml:LinearRing gml:id=\"4018133_LR.lHfcvQUrKVl08ifcH6eO\">
                      <gml:posList>678105.792 5403815.554 369.98523 678105.792 5403815.555 367.67323 678106.047 5403815.125 367.67323 678106.047 5403815.125 367.67323 678106.047 5403815.125 367.67323 678106.047 5403815.124 369.98523 678105.792 5403815.554 369.98523</gml:posList>
                    </gml:LinearRing>
                  </gml:exterior>
                </gml:Polygon>
              </gml:surfaceMember>
            </gml:MultiSurface>";

    let _result = parse_multi_surface(source_text).unwrap();
}

#[test]
fn parsing_multi_surface_with_holes() {
    let source_text = "
            <gml:MultiSurface srsName=\"EPSG:25832\" srsDimension=\"3\">
              <gml:surfaceMember>
                <gml:Polygon gml:id=\"4018106_PG.dKY9ug9ol2tsxL5bLAPz\">
                  <gml:exterior>
                    <gml:LinearRing gml:id=\"4018106_LR.Wqmtl1E6Yz3eVJkuGjsK\">
                      <gml:posList>678097.805 5403801.433 367.40123 678092.938 5403810.139 367.40123 678092.938 5403810.139 370.87623 678092.032 5403811.76 370.87623 678092.032 5403811.76 377.09023 678097.805 5403801.433 377.09023 678097.805 5403801.433 367.40123</gml:posList>
                    </gml:LinearRing>
                  </gml:exterior>
                  <gml:interior>
                    <gml:LinearRing gml:id=\"4018106_LR.10JNDsQqif3fouy54mfv\">
                      <gml:posList>678096.88 5403803.088 374.90623 678097.403 5403802.152 374.90623 678097.403 5403802.152 376.19923 678096.88 5403803.088 376.19923 678096.88 5403803.088 374.90623</gml:posList>
                    </gml:LinearRing>
                  </gml:interior>
                  <gml:interior>
                    <gml:LinearRing gml:id=\"4018106_LR.yzLlZkAQX00eXb6Xi0DZ\">
                      <gml:posList>678096.154 5403804.386 376.19923 678096.154 5403804.386 374.90623 678096.677 5403803.45 374.90623 678096.677 5403803.45 376.19923 678096.154 5403804.386 376.19923</gml:posList>
                    </gml:LinearRing>
                  </gml:interior>
                  <gml:interior>
                    <gml:LinearRing gml:id=\"4018106_LR.MIkI0SEPyMQ4yblCNiF2\">
                      <gml:posList>678095.438 5403805.667 376.19923 678095.438 5403805.667 374.90623 678095.961 5403804.731 374.90623 678095.961 5403804.731 376.19923 678095.438 5403805.667 376.19923</gml:posList>
                    </gml:LinearRing>
                  </gml:interior>
                  <gml:interior>
                    <gml:LinearRing gml:id=\"4018106_LR.novU6ZVfhrtxrFFh7eYQ\">
                      <gml:posList>678097.403 5403802.152 372.05223 678097.403 5403802.152 373.34523 678096.88 5403803.088 373.34523 678096.88 5403803.088 372.05223 678097.403 5403802.152 372.05223</gml:posList>
                    </gml:LinearRing>
                  </gml:interior>
                  <gml:interior>
                    <gml:LinearRing gml:id=\"4018106_LR.XdJcfjsruS75wlUmTQdH\">
                      <gml:posList>678096.677 5403803.45 372.05223 678096.677 5403803.45 373.34523 678096.154 5403804.386 373.34523 678096.154 5403804.386 372.05223 678096.677 5403803.45 372.05223</gml:posList>
                    </gml:LinearRing>
                  </gml:interior>
                  <gml:interior>
                    <gml:LinearRing gml:id=\"4018106_LR.wzwxsPr4Ys8dTM1bzH8T\">
                      <gml:posList>678095.961 5403804.731 372.05223 678095.961 5403804.731 373.34523 678095.438 5403805.667 373.34523 678095.438 5403805.667 372.05223 678095.961 5403804.731 372.05223</gml:posList>
                    </gml:LinearRing>
                  </gml:interior>
                  <gml:interior>
                    <gml:LinearRing gml:id=\"4018106_LR.20P6FwXiq4ZJ4EAxdmJ0\">
                      <gml:posList>678093.838 5403808.528 374.89423 678094.361 5403807.593 374.89423 678094.361 5403807.593 376.18723 678093.838 5403808.528 376.18723 678093.838 5403808.528 374.89423</gml:posList>
                    </gml:LinearRing>
                  </gml:interior>
                  <gml:interior>
                    <gml:LinearRing gml:id=\"4018106_LR.saIYdVUNcoK3LJkC2LDw\">
                      <gml:posList>678093.645 5403808.873 374.89423 678093.645 5403808.873 376.18723 678093.122 5403809.809 376.18723 678093.122 5403809.809 374.89423 678093.645 5403808.873 374.89423</gml:posList>
                    </gml:LinearRing>
                  </gml:interior>
                  <gml:interior>
                    <gml:LinearRing gml:id=\"4018106_LR.yPDE98qtqfTYBziBsTpl\">
                      <gml:posList>678093.869 5403808.474 372.04523 678094.392 5403807.538 372.04523 678094.392 5403807.538 373.33823 678093.869 5403808.474 373.33823 678093.869 5403808.474 372.04523</gml:posList>
                    </gml:LinearRing>
                  </gml:interior>
                  <gml:interior>
                    <gml:LinearRing gml:id=\"4018106_LR.XaQt7QEqeVnG2PB8D6ad\">
                      <gml:posList>678093.153 5403809.755 373.33823 678093.153 5403809.755 372.04523 678093.676 5403808.819 372.04523 678093.676 5403808.819 373.33823 678093.153 5403809.755 373.33823</gml:posList>
                    </gml:LinearRing>
                  </gml:interior>
                  <gml:interior>
                    <gml:LinearRing gml:id=\"4018106_LR.kCEyyLA2tigxjpQY9cyU\">
                      <gml:posList>678092.933 5403810.148 372.04523 678092.933 5403810.148 373.32523 678092.126 5403811.591 373.32523 678092.126 5403811.591 372.04523 678092.933 5403810.148 372.04523</gml:posList>
                    </gml:LinearRing>
                  </gml:interior>
                  <gml:interior>
                    <gml:LinearRing gml:id=\"4018106_LR.Wq5AG6YS8zrN5HgtFQD8\">
                      <gml:posList>678092.126 5403811.591 376.18723 678092.126 5403811.591 374.89423 678092.933 5403810.148 374.89423 678092.933 5403810.148 376.18723 678092.126 5403811.591 376.18723</gml:posList>
                    </gml:LinearRing>
                  </gml:interior>
                  <gml:interior>
                    <gml:LinearRing gml:id=\"4018106_LR.aQFMEYkDQkns0ZoJ66pj\">
                      <gml:posList>678095.264 5403805.978 370.34223000000003 678095.264 5403805.978 370.79823 678093.197 5403809.675 370.79823 678093.197 5403809.675 370.34223000000003 678095.264 5403805.978 370.34223000000003</gml:posList>
                    </gml:LinearRing>
                  </gml:interior>
                  <gml:interior>
                    <gml:LinearRing gml:id=\"4018106_LR.tXljCrPP3Efr0mz83aTx\">
                      <gml:posList>678095.254 5403805.996 368.30523 678095.254 5403805.996 370.06923 678093.187 5403809.693 370.06923 678093.187 5403809.693 368.30523 678095.254 5403805.996 368.30523</gml:posList>
                    </gml:LinearRing>
                  </gml:interior>
                  <gml:interior>
                    <gml:LinearRing gml:id=\"4018106_LR.gLnR6siy7dPwvvNX2zz0\">
                      <gml:posList>678095.558 5403805.452 370.06723 678095.558 5403805.452 368.30323 678097.625 5403801.755 368.30323 678097.625 5403801.755 370.06723 678095.558 5403805.452 370.06723</gml:posList>
                    </gml:LinearRing>
                  </gml:interior>
                  <gml:interior>
                    <gml:LinearRing gml:id=\"4018106_LR.Iw6I84mlFFHQEPQCpApK\">
                      <gml:posList>678097.625 5403801.755 370.34223000000003 678097.625 5403801.755 370.79223 678095.558 5403805.452 370.79223 678095.558 5403805.452 370.34223000000003 678097.625 5403801.755 370.34223000000003</gml:posList>
                    </gml:LinearRing>
                  </gml:interior>
                </gml:Polygon>
              </gml:surfaceMember>
            </gml:MultiSurface>";

    let result = parse_multi_surface(source_text).unwrap();

    assert_eq!(result.surface_member().len(), 1);
}

#[test]
fn parsing_multi_surface_without_id() {
    let source_text = "<gml:MultiSurface>
              <gml:surfaceMember>
                <gml:Polygon>
                  <gml:exterior>
                    <gml:LinearRing>
                      <gml:posList srsDimension=\"3\">678009.7116291433 5403638.313338383 417.3480034550211 678012.5609078613 5403634.960884141 417.34658523466385 678013.7892528991 5403636.004867206 417.51938733855997 678010.9399743223 5403639.357321232 417.5208051908512 678009.7116291433 5403638.313338383 417.3480034550211</gml:posList>
                    </gml:LinearRing>
                  </gml:exterior>
                </gml:Polygon>
              </gml:surfaceMember>
            </gml:MultiSurface>";

    let result = parse_multi_surface(source_text).unwrap();

    assert_eq!(result.surface_member().len(), 1);
}

fn one_member_square(id_attr: &str) -> String {
    let mut text = String::from("<gml:MultiSurface");
    text.push_str(id_attr);
    text.push_str(
        ">
          <gml:surfaceMember>
            <gml:Polygon>
              <gml:exterior>
                <gml:LinearRing>
                  <gml:posList>0 0 0 1 0 0 1 1 0 0 1 0 0 0 0</gml:posList>
                </gml:LinearRing>
              </gml:exterior>
            </gml:Polygon>
          </gml:surfaceMember>
        </gml:MultiSurface>",
    );
    text
}

#[test]
fn explicit_identifier_is_kept() {
    let text = one_member_square(" gml:id=\"surface-7\"");
    let result = parse_multi_surface(&text).unwrap();
    assert_eq!(result.id().unwrap().as_str(), "surface-7");
}

#[test]
fn explicit_identifier_independent_of_members() {
    let text_a = one_member_square(" gml:id=\"surface-7\"");
    let text_b = "<gml:MultiSurface gml:id=\"surface-7\">
          <gml:surfaceMember>
            <gml:Polygon>
              <gml:exterior>
                <gml:LinearRing>
                  <gml:posList>5 5 5 9 5 5 9 9 5 5 9 5 5 5 5</gml:posList>
                </gml:LinearRing>
              </gml:exterior>
            </gml:Polygon>
          </gml:surfaceMember>
        </gml:MultiSurface>";
    let a = parse_multi_surface(&text_a).unwrap();
    let b = parse_multi_surface(text_b).unwrap();
    assert_eq!(a.id(), b.id());
}

#[test]
fn fallback_identifier_is_deterministic() {
    let text = one_member_square("");
    let first = parse_multi_surface(&text).unwrap();
    let second = parse_multi_surface(&text).unwrap();
    assert_eq!(first.id(), second.id());
    // the derived identifier is a 64-character digest, not the raw content
    assert_eq!(first.id().unwrap().as_str().len(), 64);
}

#[test]
fn fallback_identifiers_differ_for_different_content() {
    let text_a = one_member_square("");
    let text_b = "<gml:MultiSurface>
          <gml:surfaceMember>
            <gml:Polygon>
              <gml:exterior>
                <gml:LinearRing>
                  <gml:posList>5 5 5 9 5 5 9 9 5 5 9 5 5 5 5</gml:posList>
                </gml:LinearRing>
              </gml:exterior>
            </gml:Polygon>
          </gml:surfaceMember>
        </gml:MultiSurface>";
    let a = parse_multi_surface(&text_a).unwrap();
    let b = parse_multi_surface(text_b).unwrap();
    assert_ne!(a.id(), b.id());
}

#[test]
fn unparseable_identifier_falls_back_to_hash() {
    // an empty identifier attribute is not a valid identifier
    let text = one_member_square(" gml:id=\"\"");
    let result = parse_multi_surface(&text).unwrap();
    assert_eq!(result.id().unwrap().as_str().len(), 64);
}

#[test]
fn reference_only_members_contribute_nothing() {
    let text = "<gml:MultiSurface>
          <gml:surfaceMember xlink:href=\"#UUID_one\"/>
          <gml:surfaceMember xlink:href=\"#UUID_two\"/>
        </gml:MultiSurface>";
    // no member contributes a polygon, so only the domain model's rejection
    // of an empty collection remains
    let result = parse_multi_surface(text);
    assert!(matches!(
        result,
        Err(ParseError::PolygonConversion(ConversionError::Domain(
            egml_core::Error::TooFewElements { .. }
        )))
    ));
}

#[test]
fn reference_member_beside_inline_member_is_dropped() {
    let text = "<gml:MultiSurface>
          <gml:surfaceMember xlink:href=\"#UUID_elsewhere\"/>
          <gml:surfaceMember>
            <gml:Polygon>
              <gml:exterior>
                <gml:LinearRing>
                  <gml:posList>0 0 0 1 0 0 1 1 0 0 1 0 0 0 0</gml:posList>
                </gml:LinearRing>
              </gml:exterior>
            </gml:Polygon>
          </gml:surfaceMember>
        </gml:MultiSurface>";
    let result = parse_multi_surface(text).unwrap();
    assert_eq!(result.surface_member().len(), 1);
}

#[test]
fn empty_multi_surface_is_a_domain_rejection() {
    let result = parse_multi_surface("<gml:MultiSurface></gml:MultiSurface>");
    assert!(matches!(
        result,
        Err(ParseError::PolygonConversion(ConversionError::Domain(_)))
    ));
}

#[test]
fn too_few_points_is_a_polygon_conversion_error() {
    let text = "<gml:MultiSurface>
          <gml:surfaceMember>
            <gml:Polygon>
              <gml:exterior>
                <gml:LinearRing>
                  <gml:posList>0 0 0 1 1 1</gml:posList>
                </gml:LinearRing>
              </gml:exterior>
            </gml:Polygon>
          </gml:surfaceMember>
        </gml:MultiSurface>";
    let result = parse_multi_surface(text);
    assert!(matches!(
        result,
        Err(ParseError::PolygonConversion(ConversionError::Domain(_)))
    ));
}

#[test]
fn ragged_coordinate_list_is_a_polygon_conversion_error() {
    let text = "<gml:MultiSurface>
          <gml:surfaceMember>
            <gml:Polygon>
              <gml:exterior>
                <gml:LinearRing>
                  <gml:posList>0 0 0 1</gml:posList>
                </gml:LinearRing>
              </gml:exterior>
            </gml:Polygon>
          </gml:surfaceMember>
        </gml:MultiSurface>";
    let result = parse_multi_surface(text);
    assert!(matches!(
        result,
        Err(ParseError::PolygonConversion(
            ConversionError::CoordinateCountNotTriple
        ))
    ));
}

#[test]
fn unreadable_ordinate_is_a_polygon_conversion_error() {
    let text = "<gml:MultiSurface>
          <gml:surfaceMember>
            <gml:Polygon>
              <gml:exterior>
                <gml:LinearRing>
                  <gml:posList>zero 0 0 1 0 0 1 1 0</gml:posList>
                </gml:LinearRing>
              </gml:exterior>
            </gml:Polygon>
          </gml:surfaceMember>
        </gml:MultiSurface>";
    let result = parse_multi_surface(text);
    assert!(matches!(
        result,
        Err(ParseError::PolygonConversion(
            ConversionError::InvalidCoordinate
        ))
    ));
}

#[test]
fn non_finite_ordinate_is_a_polygon_conversion_error() {
    let text = "<gml:MultiSurface>
          <gml:surfaceMember>
            <gml:Polygon>
              <gml:exterior>
                <gml:LinearRing>
                  <gml:posList>inf 0 0 1 0 0 1 1 0</gml:posList>
                </gml:LinearRing>
              </gml:exterior>
            </gml:Polygon>
          </gml:surfaceMember>
        </gml:MultiSurface>";
    let result = parse_multi_surface(text);
    assert!(matches!(
        result,
        Err(ParseError::PolygonConversion(
            ConversionError::InvalidCoordinate
        ))
    ));
}

#[test]
fn unterminated_tag_is_a_deserialization_error() {
    let result = parse_multi_surface("<gml:MultiSurface");
    assert!(matches!(
        result,
        Err(ParseError::Deserialization(DeserializeError::UnexpectedEnd))
    ));
}

#[test]
fn wrong_root_element_is_a_deserialization_error() {
    let result = parse_multi_surface("<gml:Polygon></gml:Polygon>");
    assert!(matches!(
        result,
        Err(ParseError::Deserialization(
            DeserializeError::UnexpectedElement
        ))
    ));
}

#[test]
fn unclosed_root_is_a_deserialization_error() {
    let result = parse_multi_surface("<gml:MultiSurface>");
    assert!(matches!(result, Err(ParseError::Deserialization(_))));
}

#[test]
fn trailing_content_is_a_deserialization_error() {
    let result = parse_multi_surface("<gml:MultiSurface></gml:MultiSurface> extra");
    assert!(matches!(
        result,
        Err(ParseError::Deserialization(
            DeserializeError::TrailingContent
        ))
    ));
}

#[test]
fn self_closing_polygon_is_a_deserialization_error() {
    let text = "<gml:MultiSurface>
          <gml:surfaceMember>
            <gml:Polygon/>
          </gml:surfaceMember>
        </gml:MultiSurface>";
    let result = parse_multi_surface(text);
    assert!(matches!(
        result,
        Err(ParseError::Deserialization(DeserializeError::MissingContent))
    ));
}

#[test]
fn two_inline_members_give_two_surface_members() {
    let text = "<gml:MultiSurface>
          <gml:surfaceMember>
            <gml:Polygon>
              <gml:exterior>
                <gml:LinearRing>
                  <gml:posList>0 0 0 1 0 0 1 1 0 0 1 0 0 0 0</gml:posList>
                </gml:LinearRing>
              </gml:exterior>
            </gml:Polygon>
          </gml:surfaceMember>
          <gml:surfaceMember>
            <gml:Polygon>
              <gml:exterior>
                <gml:LinearRing>
                  <gml:posList>5 5 5 9 5 5 9 9 5 5 9 5 5 5 5</gml:posList>
                </gml:LinearRing>
              </gml:exterior>
            </gml:Polygon>
          </gml:surfaceMember>
        </gml:MultiSurface>";
    let result = parse_multi_surface(text).unwrap();
    assert_eq!(result.surface_member().len(), 2);
}

#[test]
fn polygon_with_holes_is_one_member() {
    let text = "<gml:MultiSurface>
          <gml:surfaceMember>
            <gml:Polygon>
              <gml:exterior>
                <gml:LinearRing>
                  <gml:posList>0 0 0 10 0 0 10 10 0 0 10 0 0 0 0</gml:posList>
                </gml:LinearRing>
              </gml:exterior>
              <gml:interior>
                <gml:LinearRing>
                  <gml:posList>1 1 0 2 1 0 2 2 0 1 2 0 1 1 0</gml:posList>
                </gml:LinearRing>
              </gml:interior>
              <gml:interior>
                <gml:LinearRing>
                  <gml:posList>4 4 0 5 4 0 5 5 0 4 5 0 4 4 0</gml:posList>
                </gml:LinearRing>
              </gml:interior>
            </gml:Polygon>
          </gml:surfaceMember>
        </gml:MultiSurface>";
    let result = parse_multi_surface(text).unwrap();
    assert_eq!(result.surface_member().len(), 1);
}

#[test]
fn self_closing_root_is_an_empty_feature() {
    // no members at all: the domain constructor rejects the empty collection
    let result = parse_multi_surface("<gml:MultiSurface gml:id=\"lone\"/>");
    assert!(matches!(
        result,
        Err(ParseError::PolygonConversion(ConversionError::Domain(_)))
    ));
}

#[test]
fn empty_member_element_carries_no_polygon() {
    let text = "<gml:MultiSurface>
          <gml:surfaceMember></gml:surfaceMember>
        </gml:MultiSurface>";
    let result = parse_multi_surface(text);
    assert!(matches!(
        result,
        Err(ParseError::PolygonConversion(ConversionError::Domain(_)))
    ));
}

#[test]
fn whitespace_inside_close_tag_is_accepted() {
    let text = "<gml:MultiSurface>
          <gml:surfaceMember>
            <gml:Polygon>
              <gml:exterior>
                <gml:LinearRing>
                  <gml:posList>0 0 0 1 0 0 1 1 0 0 1 0 0 0 0</gml:posList>
                </gml:LinearRing>
              </gml:exterior>
            </gml:Polygon>
          </gml:surfaceMember>
        </gml:MultiSurface >";
    let result = parse_multi_surface(text).unwrap();
    assert_eq!(result.surface_member().len(), 1);
}

#[test]
fn xml_declaration_is_accepted() {
    let mut text = String::from("<?xml version=\"1.0\" encoding=\"UTF-8\"?>\n");
    text.push_str(&one_member_square(" gml:id=\"declared\""));
    let result = parse_multi_surface(&text).unwrap();
    assert_eq!(result.id().unwrap().as_str(), "declared");
}

#[test]
fn single_quoted_attribute_is_accepted() {
    let text = one_member_square(" gml:id='quoted-7'");
    let result = parse_multi_surface(&text).unwrap();
    assert_eq!(result.id().unwrap().as_str(), "quoted-7");
}

#[test]
fn non_ascii_identifier_is_decoded() {
    let text = one_member_square(" gml:id=\"\u{c5}re\"");
    let result = parse_multi_surface(&text).unwrap();
    assert_eq!(result.id().unwrap().as_str(), "\u{c5}re");
}
