use kodik_parser::parser::{extract_player_url, extract_video_info, get_api_endpoint, get_domain, VideoInfo};
use kodik_parser::{Error, Field};

#[test]
fn test_get_domain() {
    let url_with_scheme = "https://kodik.info/video/91873/060cab655974d46835b3f4405807acc2/720p";
    let url_without_scheme = "kodik.info/video/91873/060cab655974d46835b3f4405807acc2/720p";

    assert_eq!("kodik.info", get_domain(url_with_scheme).unwrap());
    assert_eq!("kodik.info", get_domain(url_without_scheme).unwrap());
}

#[test]
fn test_extract_video_info() {
    let expected_video_info = VideoInfo::new("video", "060cab655974d46835b3f4405807acc2", "91873");

    let response_text = "
  var videoInfo = {};
   videoInfo.type = 'video';
   videoInfo.hash = '060cab655974d46835b3f4405807acc2';
   videoInfo.id = '91873';
</script>";

    let video_info = extract_video_info(response_text).unwrap();

    assert_eq!(expected_video_info, video_info);
}

#[test]
fn test_get_player_url() {
    let domain = "kodik.info";
    let response_text = r#"
  </script>

  <link rel="stylesheet" href="/assets/css/app.player.ffc43caed0b4bc0a9f41f95c06cd8230d49aaf7188dbba5f0770513420541101.css">
  <script type="text/javascript" src="/assets/js/app.player_single.0a909e421830a88800354716d562e21654500844d220805110c7cf2092d70b05.js"></script>
</head>
<body class=" ">
  <div class="main-box">
    <style>
  .resume-button { color: rgba(255, 255, 255, 0.75); }
  .resume-button:hover { background-color: #171717; }
  .resume-button { border-radius: 3px; }
  .active-player .resume-button { border-radius: 3px; }"#;

    let player_url = extract_player_url(domain, response_text).unwrap();
    assert_eq!(
        "https://kodik.info/assets/js/app.player_single.0a909e421830a88800354716d562e21654500844d220805110c7cf2092d70b05.js",
        player_url
    );
}

#[test]
fn test_get_api_endpoint() {
    let player_response_text = r#"==t.secret&&(e.secret=t.secret),userInfo&&"object"===_typeof(userInfo.info)&&(e.info=JSON.stringify(userInfo.info)),void 0!==window.advertTest&&(e.a_test=!0),!0===t.isUpdate&&(e.isUpdate=!0),$.ajax({type:"POST",url:atob("L2Z0b3I="),"#;
    assert_eq!("/ftor", get_api_endpoint(player_response_text).unwrap());
}

#[test]
fn domain_is_found_anywhere_in_the_text() {
    assert_eq!("kodik.info", get_domain("//kodik.info").unwrap());
    assert_eq!("p56.kodik.info", get_domain("http://p56.kodik.info:8080/x").unwrap());
    assert_eq!("a-b.c9.example.org", get_domain("see A-B a-b.c9.example.org?q=1").unwrap());
    // The first host name wins, taken as long as possible.
    assert_eq!("one.example", get_domain("one.example two.example").unwrap());
    // A last label of one character does not make a host name.
    // Labels, the last one too, may have a single character.
    assert_eq!("a.b.cd", get_domain("a.b.cd").unwrap());
    assert_eq!("a.b", get_domain("a.b").unwrap());
    assert_eq!("ab.cd.e", get_domain("ab.cd.e").unwrap());
    assert_eq!("x.y", get_domain("x.y ab.cd").unwrap());
}

#[test]
fn domain_missing_is_an_error() {
    assert!(matches!(get_domain("https://localhost/video"), Err(Error::NoDomainFound)));
    assert!(matches!(get_domain(""), Err(Error::NoDomainFound)));
    assert!(matches!(get_domain("KODIK.INFO"), Err(Error::NoDomainFound)));
}

#[test]
fn identity_in_any_order_and_spacing() {
    let text = "x videoInfo.id = '91873';\n\t videoInfo.type = 'video';videoInfo.hash = 'abc';  ";
    let info = extract_video_info(text).unwrap();
    assert_eq!("video", info.video_type());
    assert_eq!("abc", info.hash());
    assert_eq!("91873", info.id());
}

#[test]
fn identity_scenario() {
    let text = "videoInfo.type = 'video'; videoInfo.hash = '060cab655974d46835b3f4405807acc2'; videoInfo.id = '91873';";
    let info = extract_video_info(text).unwrap();
    assert_eq!(VideoInfo::new("video", "060cab655974d46835b3f4405807acc2", "91873"), info);
}

#[test]
fn fields_are_searched_independently() {
    let text = "videoInfo.id = 'a videoInfo.type = 'video'; videoInfo.id = '91873';";
    assert!(matches!(extract_video_info(text), Err(Error::MissingField(Field::Hash))));
    let text = "videoInfo.id = 'a videoInfo.type = 'video'; videoInfo.hash = 'h';";
    let info = extract_video_info(text).unwrap();
    assert_eq!("video", info.video_type());
    assert_eq!("a videoInfo.type = 'video", info.id());
}

#[test]
fn later_assignment_replaces_earlier() {
    let text = "videoInfo.type = 'a'; videoInfo.type = 'b'; videoInfo.hash = 'h'; videoInfo.id = '1';";
    assert_eq!("b", extract_video_info(text).unwrap().video_type());
}

#[test]
fn missing_fields_are_named() {
    let no_hash = "videoInfo.type = 'video'; videoInfo.id = '91873';";
    assert!(matches!(extract_video_info(no_hash), Err(Error::MissingField(Field::Hash))));
    let nothing = "<html></html>";
    assert!(matches!(extract_video_info(nothing), Err(Error::MissingField(Field::Type))));
    let no_id = "videoInfo.type = 'video'; videoInfo.hash = 'h';";
    assert!(matches!(extract_video_info(no_id), Err(Error::MissingField(Field::Id))));
    // An empty value counts as missing.
    let empty_hash = "videoInfo.type = 'video'; videoInfo.hash = ''; videoInfo.id = '1';";
    assert!(matches!(extract_video_info(empty_hash), Err(Error::MissingField(Field::Hash))));
    // A value does not run over a line break.
    let broken = "videoInfo.type = 'video\n'; videoInfo.hash = 'h'; videoInfo.id = '1';";
    assert!(matches!(extract_video_info(broken), Err(Error::MissingField(Field::Type))));
    assert_eq!("hash", Field::Hash.name());
}

#[test]
fn video_info_form_fields() {
    let info = VideoInfo::new("video", "h", "7");
    let fields = info.form_fields();
    let pairs: Vec<(&str, &str)> = fields.iter().map(|(k, v)| (k.as_str(), v.as_str())).collect();
    assert_eq!(
        vec![
            ("type", "video"),
            ("hash", "h"),
            ("id", "7"),
            ("bad_user", "True"),
            ("info", "{}"),
            ("cdn_is_working", "True"),
        ],
        pairs
    );
}

#[test]
fn player_script_tag_variants() {
    let spaced = "<script  type=\"text/javascript\"\n src=\"/assets/js/app.player_single.js?v=2\">";
    assert_eq!(
        "https://kodik.info/assets/js/app.player_single.js?v=2",
        extract_player_url("kodik.info", spaced).unwrap()
    );
    let other = "<script type=\"text/javascript\" src=\"/assets/js/app.other.js\">";
    assert!(matches!(extract_player_url("kodik.info", other), Err(Error::NoPlayerScript)));
    let unterminated = "<script type=\"text/javascript\" src=\"/assets/js/app.player_single.js";
    assert!(matches!(extract_player_url("kodik.info", unterminated), Err(Error::NoPlayerScript)));
}

#[test]
fn endpoint_marker_variants() {
    assert_eq!("/ftor", get_api_endpoint("$.ajax({a:1,url: atob('L2Z0b3I=')})").unwrap());
    // The last marker before a `>` is taken.
    assert_eq!(
        "/ftor",
        get_api_endpoint("$.ajax({x,url:atob(\"L2Jhcg==\"),y,url:atob(\"L2Z0b3I=\")})").unwrap()
    );
    assert!(matches!(get_api_endpoint("$.ajax({>,url:atob(\"L2Z0b3I=\")})"), Err(Error::NoEndpointMarker)));
    assert!(matches!(get_api_endpoint("no call here"), Err(Error::NoEndpointMarker)));
    // Payloads use the whole base64 alphabet: "/a>>>?" encodes as "L2E+Pj4/".
    assert_eq!("/a>>>?", get_api_endpoint("$.ajax({x,url:atob(\"L2E+Pj4/\")})").unwrap());
    assert!(matches!(get_api_endpoint("$.ajax({x,url:atob(\"L2Z0b3\")})"), Err(Error::Decode(_))));
}
