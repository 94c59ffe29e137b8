use brep::step::{parse_entity_line, parse_step_data, Entity, EntityMap, Param, StepError};
use brep::step_mesh::{build_mesh, StepPoint};
use brep::text::{parse_u32_chars, scan_number, trim_chars};
use brep::validate::validate_mesh;
use brep::{FaceId, VertexId};

fn chars(s: &str) -> Vec<char> {
    s.chars().collect()
}

const TETRA: &str = "ISO-10303-21;
HEADER;
FILE_NAME('tetra.step');
ENDSEC;
DATA;
/* the four corners */
#1=CARTESIAN_POINT('',(0.,0.,0.));
#2=CARTESIAN_POINT('',(1.,0.,0.));
#3=CARTESIAN_POINT('',(0.,1.,0.));
#4=CARTESIAN_POINT('',(0.,0.,1.E0));
#11=VERTEX_POINT('',#1);
#12=VERTEX_POINT('',#2);
#13=VERTEX_POINT('',#3);
#14=vertex_point('',#4); /* lower case is read as upper case */
#21=EDGE_CURVE('',#11,#12,#99,.T.);
#22=EDGE_CURVE('',#12,#13,#99,.T.);
#23=EDGE_CURVE('',#13,#11,#99,.T.);
#24=EDGE_CURVE('',#11,#14,#99,.T.);
#25=EDGE_CURVE('',#12,#14,#99,.T.);
#26=EDGE_CURVE('',#13,#14,#99,.T.);
#31=ORIENTED_EDGE('',*,*,#21,.T.);
#32=ORIENTED_EDGE('',*,*,#21,.F.);
#33=ORIENTED_EDGE('',*,*,#22,.T.);
#34=ORIENTED_EDGE('',*,*,#22,.F.);
#35=ORIENTED_EDGE('',*,*,#23,.T.);
#36=ORIENTED_EDGE('',*,*,#23,.F.);
#37=ORIENTED_EDGE('',*,*,#24,.T.);
#38=ORIENTED_EDGE('',*,*,#24,.F.);
#39=ORIENTED_EDGE('',*,*,#25,.T.);
#40=ORIENTED_EDGE('',*,*,#25,.F.);
#41=ORIENTED_EDGE('',*,*,#26,.T.);
#42=ORIENTED_EDGE('',*,*,#26,.F.);
#51=EDGE_LOOP('',(#36,#34,#32));
#52=EDGE_LOOP('',(#31,#39,#38));
#53=EDGE_LOOP('',(#37,
  #42,#35));
#54=EDGE_LOOP('',(#33,#41,#40));
#61=FACE_OUTER_BOUND('',#51,.T.);
#62=FACE_OUTER_BOUND('',#52,.T.);
#63=FACE_OUTER_BOUND('',#53,.T.);
#64=FACE_BOUND('',#54,.T.);
#71=ADVANCED_FACE('',(#61),#99,.T.);
#72=ADVANCED_FACE('',(#62),#99,.T.);
#73=ADVANCED_FACE('',(#63),#99,.T.);
#74=ADVANCED_FACE('',(#64),#99,.T.);
ENDSEC;
END-ISO-10303-21;
";

#[test]
fn tetrahedron_from_step() {
    let map = parse_step_data(TETRA).unwrap();
    assert_eq!(map.len(), 38);
    let mesh = build_mesh::<()>(&map).unwrap();
    assert_eq!(mesh.vertices.len(), 4);
    assert_eq!(mesh.edges.len(), 6);
    assert_eq!(mesh.oriented_edges.len(), 12);
    assert_eq!(mesh.faces.len(), 4);
    assert!(validate_mesh(&mesh).is_ok());
    let p: &StepPoint = &mesh.vertices[3].position;
    assert_eq!(p.z, chars("1.E0"));
    assert_eq!(p.x, chars("0."));
    assert_eq!(mesh.edges[2].vertices, [VertexId::new(2), VertexId::new(0)]);
    assert_eq!(mesh.oriented_edges[5].face, FaceId::new(0));
    assert!(!mesh.oriented_edges[5].forward);
    assert!(mesh.faces.iter().all(|f| f.normal.is_none()));
}

#[test]
fn lower_case_type_names_are_upper_cased() {
    let map = parse_step_data(TETRA).unwrap();
    let i = map.find(14).unwrap();
    assert_eq!(map.entries[i].kind, chars("VERTEX_POINT"));
}

#[test]
fn entity_line_parameters() {
    let (id, kind, params) =
        parse_entity_line(&chars("  #12 = Foo ( 'a''b' , (1., -2.5E3, #7), .T., * ) ;")).unwrap();
    assert_eq!(id, 12);
    assert_eq!(kind, chars("FOO"));
    assert_eq!(params.len(), 4);
    match &params[0] {
        Param::Str(s) => assert_eq!(*s, chars("a'b")),
        other => panic!("unexpected {:?}", other),
    }
    match &params[1] {
        Param::List(items) => {
            assert_eq!(items.len(), 3);
            assert!(matches!(&items[0], Param::Real(t) if *t == chars("1.")));
            assert!(matches!(&items[1], Param::Real(t) if *t == chars("-2.5E3")));
            assert!(matches!(&items[2], Param::Ref(7)));
        },
        other => panic!("unexpected {:?}", other),
    }
    assert!(matches!(&params[2], Param::Enum(e) if *e == chars("T")));
    assert!(matches!(&params[3], Param::Omitted));
}

#[test]
fn entity_line_errors() {
    let bad = [
        "#1 CARTESIAN_POINT('',(0.,0.,0.));",
        "#x=CARTESIAN_POINT('',(0.,0.,0.));",
        "#1=CARTESIAN_POINT;",
        "#1=FOO('abc);",
        "#1=FOO(1.E);",
        "#1=FOO(#);",
        "#1=FOO((1,2;",
        "#1=FOO(?);",
        "#99999999999=FOO(1);",
    ];
    for line in bad {
        assert!(
            matches!(parse_entity_line(&chars(line)), Err(StepError::Parse(_))),
            "accepted {line}"
        );
    }
    // Text after the closing parenthesis and after the parameters is not read.
    let (id, kind, params) = parse_entity_line(&chars("##+5=x();")).unwrap();
    assert_eq!((id, kind, params.len()), (5, chars("X"), 0));
}

#[test]
fn later_instances_replace_earlier_ones() {
    let text = "DATA;\n#5=A(1.);\n#5=B(2.);\n#3=C();\nENDSEC;\n#9=D();\n";
    let map = parse_step_data(text).unwrap();
    assert_eq!(map.len(), 2);
    assert_eq!(map.entries[0].id, 3);
    assert_eq!(map.entries[1].id, 5);
    assert_eq!(map.entries[1].kind, chars("B"));
    assert!(map.find(9).is_none());
}

#[test]
fn malformed_instance_fails_the_file() {
    let text = "DATA;\r\n#5=A('open);\r\nENDSEC;\r\n";
    assert!(matches!(parse_step_data(text), Err(StepError::Parse(_))));
    // Outside the DATA section nothing is read.
    assert_eq!(parse_step_data("#5=A('open);\n").unwrap().len(), 0);
}

#[test]
fn entity_map_insert_and_find() {
    let mut map = EntityMap::new();
    map.insert(Entity { id: 8, kind: chars("A"), params: vec![] });
    map.insert(Entity { id: 2, kind: chars("B"), params: vec![] });
    map.insert(Entity { id: 8, kind: chars("C"), params: vec![Param::Ref(1)] });
    assert_eq!(map.len(), 2);
    assert_eq!(map.entries[0].id, 2);
    let i = map.find(8).unwrap();
    assert_eq!(map.entries[i].kind, chars("C"));
    assert_eq!(map.lower_bound(5), 1);
    assert!(map.find(3).is_none());
}

#[test]
fn missing_references_fail_the_mesh() {
    let broken = TETRA.replace("#12=VERTEX_POINT('',#2);", "#12=VERTEX_POINT('',#5);");
    let map = parse_step_data(&broken).unwrap();
    assert!(matches!(build_mesh::<()>(&map), Err(StepError::Parse(_))));

    // An oriented edge that no face uses.
    let extra = TETRA.replace("ENDSEC;\nEND", "#43=ORIENTED_EDGE('',*,*,#26,.T.);\nENDSEC;\nEND");
    let map = parse_step_data(&extra).unwrap();
    assert!(matches!(build_mesh::<()>(&map), Err(StepError::Parse(_))));

    // An edge with no oriented edge in one direction.
    let one_sided = TETRA.replace("#42=ORIENTED_EDGE('',*,*,#26,.F.);", "#42=ORIENTED_EDGE('',*,*,#26,.T.);");
    let map = parse_step_data(&one_sided).unwrap();
    assert!(matches!(build_mesh::<()>(&map), Err(StepError::Parse(_))));

    // A bound that is not a face bound.
    let no_bound = TETRA.replace("#74=ADVANCED_FACE('',(#64),#99,.T.);", "#74=ADVANCED_FACE('',(#54),#99,.T.);");
    let map = parse_step_data(&no_bound).unwrap();
    assert!(matches!(build_mesh::<()>(&map), Err(StepError::Parse(_))));
}

#[test]
fn text_helpers() {
    assert_eq!(trim_chars(&chars("\u{a0} ab c\t\n")), chars("ab c"));
    assert_eq!(parse_u32_chars(&chars("+42")), Some(42));
    assert_eq!(parse_u32_chars(&chars("4294967295")), Some(u32::MAX));
    assert_eq!(parse_u32_chars(&chars("4294967296")), None);
    assert_eq!(parse_u32_chars(&chars("")), None);
    assert_eq!(parse_u32_chars(&chars("+")), None);
    assert_eq!(parse_u32_chars(&chars("-1")), None);
    assert_eq!(scan_number(&chars("1.5e-3,"), 0), (6, true));
    assert_eq!(scan_number(&chars("-.5"), 0), (3, true));
    assert_eq!(scan_number(&chars("1e"), 0), (2, false));
    assert_eq!(scan_number(&chars("-."), 0), (2, false));
    assert_eq!(scan_number(&chars("7)"), 0), (1, true));
}

#[test]
fn error_messages_name_the_offending_text() {
    match parse_entity_line(&chars("#1=FOO(1.E);")) {
        Err(StepError::Parse(msg)) => assert_eq!(msg, "bad number: 1.E"),
        other => panic!("unexpected {:?}", other),
    }
    match parse_entity_line(&chars("#1 FOO;")) {
        Err(StepError::Parse(msg)) => assert_eq!(msg, "no '=' in '#1 FOO'"),
        other => panic!("unexpected {:?}", other),
    }
}

fn parse_error_text(line: &str) -> String {
    match parse_entity_line(&chars(line)) {
        Err(StepError::Parse(msg)) => msg,
        other => panic!("unexpected {:?}", other),
    }
}

#[test]
fn parameter_error_messages() {
    assert_eq!(parse_error_text("#1=F('abc"), "unterminated string");
    assert_eq!(parse_error_text("#1=F((1.0"), "expected ')'");
    assert_eq!(parse_error_text("#1=F(#)"), "bad entity ref");
    assert_eq!(parse_error_text("#1=F(x)"), "unexpected token: Some('x')");
    assert_eq!(parse_error_text("#1=F(1,)"), "unexpected token: None");
    assert_eq!(parse_error_text("#1=F(\u{7})"), "unexpected token: Some('\\u{7}')");
    assert_eq!(parse_error_text("#a=FOO(1.);"), "bad entity id");
    assert_eq!(parse_error_text("#1=FOO;"), "no '(' in entity");
    assert_eq!(parse_error_text("#1 FOO(1.);"), "no '=' in '#1 FOO(1.)'");
}

#[test]
fn mesh_error_messages_name_the_ids() {
    let mut map = EntityMap::new();
    map.insert(Entity {
        id: 1,
        kind: chars("VERTEX_POINT"),
        params: vec![Param::Str(vec![]), Param::Ref(2)],
    });
    match build_mesh::<()>(&map) {
        Err(StepError::Parse(msg)) => assert_eq!(msg, "missing CARTESIAN_POINT #2"),
        other => panic!("unexpected {:?}", other.map(|_| ())),
    }
    let extra = TETRA.replace("ENDSEC;\nEND", "#43=ORIENTED_EDGE('',*,*,#26,.T.);\nENDSEC;\nEND");
    let map = parse_step_data(&extra).unwrap();
    match build_mesh::<()>(&map) {
        Err(StepError::Parse(msg)) => assert_eq!(msg, "oriented_edge 12 was not assigned to any face"),
        other => panic!("unexpected {:?}", other.map(|_| ())),
    }
    let one_sided = TETRA.replace("#42=ORIENTED_EDGE('',*,*,#26,.F.);", "#42=ORIENTED_EDGE('',*,*,#26,.T.);");
    let map = parse_step_data(&one_sided).unwrap();
    match build_mesh::<()>(&map) {
        Err(StepError::Parse(msg)) => {
            assert_eq!(msg, "edge 5 is missing a forward or reversed oriented_edge back-ref")
        },
        other => panic!("unexpected {:?}", other.map(|_| ())),
    }
    let no_bound = TETRA.replace("#74=ADVANCED_FACE('',(#64),#99,.T.);", "#74=ADVANCED_FACE('',(#54),#99,.T.);");
    let map = parse_step_data(&no_bound).unwrap();
    match build_mesh::<()>(&map) {
        Err(StepError::Parse(msg)) => assert_eq!(msg, "ADVANCED_FACE #74 has no usable bound"),
        other => panic!("unexpected {:?}", other.map(|_| ())),
    }
}

fn mesh_error_text(step: &str) -> String {
    let map = parse_step_data(step).unwrap();
    match build_mesh::<()>(&map) {
        Err(StepError::Parse(msg)) => msg,
        other => panic!("unexpected {:?}", other.map(|_| ())),
    }
}

#[test]
fn mesh_error_messages_for_each_stage() {
    let cases = [
        ("#4=CARTESIAN_POINT('',(0.,0.,1.E0));", "#4=CARTESIAN_POINT('',(0.,0.));", "expected real"),
        ("#4=CARTESIAN_POINT('',(0.,0.,1.E0));", "#4=CARTESIAN_POINT('',0.);", "expected list"),
        ("#14=vertex_point('',#4);", "#14=vertex_point('',4.);", "expected ref"),
        ("#24=EDGE_CURVE('',#11,#14,#99,.T.);", "#24=EDGE_CURVE('',#11,#15,#99,.T.);", "missing VERTEX_POINT #15"),
        ("#24=EDGE_CURVE('',#11,#14,#99,.T.);", "#24=EDGE_CURVE('',#1,#14,#99,.T.);", "missing VERTEX_POINT #1"),
        ("#38=ORIENTED_EDGE('',*,*,#24,.F.);", "#38=ORIENTED_EDGE('',*,*,#24,.X.);", "expected bool enum"),
        ("#38=ORIENTED_EDGE('',*,*,#24,.F.);", "#38=ORIENTED_EDGE('',*,*,#27,.F.);", "missing EDGE_CURVE #27"),
        ("#54=EDGE_LOOP('',(#33,#41,#40));", "#54=EDGE_LOOP('',(#33,#41,#44));", "missing ORIENTED_EDGE #44"),
        ("#54=EDGE_LOOP('',(#33,#41,#40));", "#54=EDGE_LOOP('',#33);", "expected list"),
        ("#64=FACE_BOUND('',#54,.T.);", "#64=FACE_BOUND('',#55,.T.);", "missing EDGE_LOOP #55"),
        ("#64=FACE_BOUND('',#54,.T.);", "#64=FACE_BOUND('',54,.T.);", "expected ref"),
        ("#74=ADVANCED_FACE('',(#64),#99,.T.);", "#74=ADVANCED_FACE('',(),#99,.T.);", "ADVANCED_FACE #74 has no usable bound"),
        ("#74=ADVANCED_FACE('',(#64),#99,.T.);", "#74=ADVANCED_FACE('',#64,#99,.T.);", "expected list"),
    ];
    for (from, to, msg) in cases {
        assert!(TETRA.contains(from), "{}", from);
        assert_eq!(mesh_error_text(&TETRA.replace(from, to)), msg, "{}", to);
    }
}
