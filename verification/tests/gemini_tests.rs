use textwipe::gemini::InlineData;
use textwipe::gemini::Part;
use textwipe::gemini::ResponsePart;
use textwipe::gemini::image_request_parts;
use textwipe::gemini::pick_payload;

#[test]
fn request_parts_keep_prompt_first_and_images_in_order() {
    let parts = image_request_parts(
        String::from("describe the slide"),
        vec![String::from("AAA="), String::from("BBB=")],
    );
    assert_eq!(parts.len(), 3);
    match &parts[0] {
        Part::Text { text } => assert_eq!(text, "describe the slide"),
        _ => panic!("prompt must come first"),
    }
    match &parts[1] {
        Part::InlineData { inline_data } => {
            assert_eq!(inline_data.mime_type, "image/png");
            assert_eq!(inline_data.data, "AAA=");
        }
        _ => panic!("image part expected"),
    }
    match &parts[2] {
        Part::InlineData { inline_data } => assert_eq!(inline_data.data, "BBB="),
        _ => panic!("image part expected"),
    }
}

#[test]
fn payload_takes_the_last_of_each_kind() {
    let parts = vec![
        ResponsePart { text: Some(String::from("early")), inline_data: None },
        ResponsePart {
            text: None,
            inline_data: Some(InlineData {
                mime_type: String::from("image/png"),
                data: String::from("IMG1"),
            }),
        },
        ResponsePart {
            text: Some(String::from("late")),
            inline_data: Some(InlineData {
                mime_type: String::from("image/png"),
                data: String::from("IMG2"),
            }),
        },
    ];
    let (image, text) = pick_payload(&parts);
    assert_eq!(image.as_deref(), Some("IMG2"));
    assert_eq!(text.as_deref(), Some("late"));
}

#[test]
fn payload_of_an_empty_response_is_empty() {
    let (image, text) = pick_payload(&vec![]);
    assert!(image.is_none());
    assert!(text.is_none());
}
