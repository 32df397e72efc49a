use imara::draw::{
    remove_normal_object, remove_textured_object, DrawError, RenderObject, ShaderError,
};
use imara::logs::{Logable, LogManager};
use imara::math::{Ray, Vec2, Vec3, Vec4};
use imara::parser::{assemble_face_data, lex, Data, NormalObj, Obj, ParseError, TexturedObj};
use imara::ui::{Dimensions, Orientation, UIError, ViewDimens, ViewPosition};
use imara::utils::{get_at_index, Cords, FontError, ViewPortDimensions};
use imara::world::{ShaderObject, StorageFileHeader, WorldError};

struct PlainLine {
    text: String,
}

impl Logable for PlainLine {
    fn to_string(&self) -> String {
        self.text.clone()
    }
}

#[test]
fn dimensions_hold_their_coordinates() {
    let d = Dimensions::new(3, 4);
    assert_eq!(d.x, 3);
    assert_eq!(d.y, 4);
    let z = Dimensions::zerod();
    assert_eq!(z.x, 0);
    assert_eq!(z.y, 0);
    let p: ViewPosition = Dimensions::new(-1, 7);
    let s: ViewDimens = Dimensions::new(10, 20);
    assert_eq!(p.y + s.y, 27);
}

#[test]
fn get_at_index_walks_a_list() {
    let list = vec![10, 20, 30];
    assert_eq!(get_at_index(&list, 0), Some(&10));
    assert_eq!(get_at_index(&list, 2), Some(&30));
    assert_eq!(get_at_index(&list, 3), None);
    let empty: Vec<u8> = Vec::new();
    assert_eq!(get_at_index(&empty, 0), None);
}

#[test]
fn log_manager_replaces_lines_by_name() {
    let mut logs = LogManager::new();
    logs.add_log(
        "main".to_string(),
        &PlainLine { text: "first".to_string() },
    );
    logs.add_log(
        "render".to_string(),
        &PlainLine { text: "draw".to_string() },
    );
    logs.add_log(
        "main".to_string(),
        &PlainLine { text: "second".to_string() },
    );
    let entries = logs.get_logs();
    assert_eq!(entries.len(), 2);
    assert_eq!(entries[0].0, "main");
    assert_eq!(entries[0].1, "second");
    assert_eq!(entries[1].0, "render");
    assert_eq!(entries[1].1, "draw");
}

#[test]
fn obj_constructors_move_parsed_data() {
    let data = Data {
        vertices: vec![Vec4::new(0, 0, 0, 1000)],
        text_cords: vec![Vec2::new(0, 1000)],
        normals: vec![Vec3::new(0, 1000, 0)],
        indices: vec![0],
    };
    let textured = <TexturedObj as Obj>::from(data);
    assert_eq!(textured.vertices.len(), 1);
    assert_eq!(textured.text_cords[0], Vec2::new(0, 1000));

    let data2 = Data {
        vertices: vec![Vec4::new(0, 0, 0, 1000), Vec4::new(1000, 0, 0, 1000)],
        text_cords: Vec::new(),
        normals: vec![Vec3::new(0, 1000, 0), Vec3::new(0, 1000, 0)],
        indices: vec![0, 1],
    };
    let normal = <NormalObj as Obj>::from(data2);
    assert_eq!(normal.vertices.len(), 2);
    assert_eq!(normal.indices, vec![0, 1]);
}

#[test]
fn plain_value_types_are_constructible() {
    let vp = ViewPortDimensions { width: 1000, height: 600 };
    assert_eq!(vp.width, 1000);
    let c = Cords { x: 3.5f32, y: 4.5f32 };
    assert!(c.x < c.y);
    let ray = Ray::new(Vec3::new(0, 0, 0), Vec3::new(0, 0, 1000));
    assert_eq!(ray.direction.z, 1000);
    let object = RenderObject {
        vertex_buffer: 1,
        element_buffer: 2,
        vertex_array_object: 3,
        size_of_elements: 6,
    };
    assert_eq!(object.size_of_elements, 6);
    remove_normal_object(0, object);
    let object2 = RenderObject {
        vertex_buffer: 4,
        element_buffer: 5,
        vertex_array_object: 6,
        size_of_elements: 9,
    };
    remove_textured_object(1, object2);
    let header = StorageFileHeader { total_entities: 3 };
    assert_eq!(header.total_entities, 3);
    let shader = ShaderObject {
        name: "default".to_string(),
        vert: "vert.glsl".to_string(),
        frag: "frag.glsl".to_string(),
        geo: None,
    };
    assert!(shader.geo.is_none());
}

#[test]
fn lexer_splits_statements_into_prefix_and_arguments() {
    let lines: Vec<Vec<u8>> = vec![
        b"v 1.0 2.0 3.0".to_vec(),
        b"# a comment line".to_vec(),
        b"vn  0.0\t0.0 1.0".to_vec(),
        b"f 1/1/1 2/2/2 \\".to_vec(),
        b"3/3/3".to_vec(),
    ];
    let statements = lex(&lines).unwrap();
    assert_eq!(statements.len(), 3);
    assert_eq!(statements[0].0, b"v".to_vec());
    assert_eq!(
        statements[0].1,
        vec![b"1.0".to_vec(), b"2.0".to_vec(), b"3.0".to_vec()]
    );
    assert_eq!(statements[1].0, b"vn".to_vec());
    assert_eq!(statements[1].1.len(), 3);
    // the continuation joins both lines into one face statement
    assert_eq!(statements[2].0, b"f".to_vec());
    assert_eq!(
        statements[2].1,
        vec![b"1/1/1".to_vec(), b"2/2/2".to_vec(), b"3/3/3".to_vec()]
    );
}

#[test]
fn lexer_rejects_statements_without_tokens() {
    let lines: Vec<Vec<u8>> = vec![b"v 1 2 3".to_vec(), b"   ".to_vec()];
    assert!(matches!(lex(&lines), Err(ParseError::Internal(_))));
    let blank: Vec<Vec<u8>> = vec![Vec::new()];
    assert!(lex(&blank).is_err());
    let empty: Vec<Vec<u8>> = Vec::new();
    assert_eq!(lex(&empty).unwrap().len(), 0);
}

#[test]
fn face_assembly_scatters_by_vertex_and_rebases_indices() {
    let vertices = vec![
        Vec4::new(0, 0, 0, 1000),
        Vec4::new(1000, 0, 0, 1000),
        Vec4::new(0, 1000, 0, 1000),
    ];
    let texture_cords = vec![Vec2::new(111, 0), Vec2::new(222, 0)];
    let normals = vec![Vec3::new(0, 0, 1000)];
    // triples count from one; a zero texture or normal index is omitted
    let faces = vec![(1, 2, 1), (2, 0, 1), (3, 1, 0), (1, 1, 0)];
    let data = assemble_face_data(vertices, texture_cords, normals, faces);
    assert_eq!(data.indices, vec![0, 1, 2, 0]);
    // the last face naming vertex 1 wins its texture slot
    assert_eq!(data.text_cords[0], Vec2::new(111, 0));
    assert_eq!(data.text_cords[1], Vec2::new(0, 0));
    assert_eq!(data.text_cords[2], Vec2::new(111, 0));
    assert_eq!(data.normals[0], Vec3::new(0, 0, 1000));
    assert_eq!(data.normals[1], Vec3::new(0, 0, 1000));
    assert_eq!(data.normals[2], Vec3::new(0, 0, 0));
}

#[test]
fn error_enums_carry_their_cases() {
    assert!(matches!(FontError::UnableToLoadFont, FontError::UnableToLoadFont));
    assert_eq!(UIError::ViewNotFound, UIError::ViewNotFound);
    assert!(matches!(Orientation::Vertical, Orientation::Vertical));
    assert_eq!(ShaderError::FailedToCompile, ShaderError::FailedToCompile);
    assert_eq!(WorldError::LevelNotFound, WorldError::LevelNotFound);
    let draw_err = DrawError::ShaderNotFound("default".to_string());
    assert!(matches!(draw_err, DrawError::ShaderNotFound(ref n) if n == "default"));
    let parse_err = ParseError::Internal("V: Invalid number of arguments".to_string());
    assert!(matches!(parse_err, ParseError::Internal(_)));
    let io_err = ParseError::IOError("file vanished".to_string());
    assert!(matches!(io_err, ParseError::IOError(_)));
}
