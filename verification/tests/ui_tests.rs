use oeis_tui::export::ExportFormat;
use oeis_tui::export::export_sequence;
use oeis_tui::export::export_to_bfile;
use oeis_tui::export::export_to_csv;
use oeis_tui::export::export_to_markdown;
use oeis_tui::export::export_to_txt;
use oeis_tui::models::BFileEntry;
use oeis_tui::models::Sequence;
use oeis_tui::settings::Language;
use oeis_tui::settings::UserSettings;
use oeis_tui::settings::WelcomeAnimationMode;
use oeis_tui::ui::WebcamInterval;
use oeis_tui::ui::calculate_scroll_offset;
use oeis_tui::ui::digit_symbol;
use oeis_tui::ui::sequence_digit;
use oeis_tui::ui::spinner_char;

fn sample_sequence() -> Sequence {
    Sequence {
        number: 45,
        id: String::new(),
        data: "1,1,2".to_string(),
        name: "Fibonacci numbers".to_string(),
        offset: "0,1".to_string(),
        comment: vec![],
        reference: vec![],
        link: vec![],
        formula: vec![],
        example: vec![],
        maple: vec![],
        mathematica: vec![],
        program: vec![],
        xref: vec![],
        keyword: "nonn".to_string(),
        author: String::new(),
        created: String::new(),
        time: String::new(),
        references: 0,
        revision: 0,
    }
}

#[test]
fn test_export_format_labels() {
    assert_eq!(ExportFormat::Json.as_str(), "JSON");
    assert_eq!(ExportFormat::Markdown.as_str(), "Markdown");
    assert_eq!(ExportFormat::Markdown.extension(), "md");
    assert_eq!(ExportFormat::BFile.extension(), "txt");
}

#[test]
fn test_export_to_csv() {
    let seq = sample_sequence();
    assert_eq!(
        export_to_csv(&seq),
        "A-number,Index,Value\nA000045,0,1\nA000045,1,1\nA000045,2,2"
    );
}

#[test]
fn test_export_to_bfile_with_and_without_data() {
    let seq = sample_sequence();
    let entries = vec![
        BFileEntry { index: 0, value: "1".to_string() },
        BFileEntry { index: 1, value: "1".to_string() },
    ];
    assert_eq!(
        export_to_bfile(&seq, Some(&entries)),
        "# A000045 - Fibonacci numbers\n0 1\n1 1\n"
    );
    assert_eq!(
        export_to_bfile(&seq, None),
        "# A000045 - Fibonacci numbers\n# Note: B-file data not loaded, showing sequence data instead\n0 1\n1 1\n2 2\n"
    );
}

#[test]
fn test_export_to_txt_layout() {
    let mut seq = sample_sequence();
    seq.comment = vec!["First comment".to_string()];
    let text = export_to_txt(&seq);
    assert!(text.starts_with("A000045: Fibonacci numbers\n"));
    // underline as wide as the heading
    assert!(text.contains(&"=".repeat("Fibonacci numbers".len() + "A000045".len() + 2)));
    assert!(text.contains("Offset: 0,1\n"));
    assert!(text.contains("Keywords: nonn\n"));
    assert!(text.contains("Data:\n1,1,2\n"));
    assert!(text.contains("Comments:\n  First comment\n"));
    assert!(text.ends_with("Source: https://oeis.org/A000045\n"));
    // the author line is left out when there is no author
    assert!(!text.contains("Author:"));
}

#[test]
fn test_export_to_markdown_layout() {
    let mut seq = sample_sequence();
    seq.author = "N. J. A. Sloane".to_string();
    seq.formula = vec!["a(n) = a(n-1) + a(n-2)".to_string()];
    seq.maple = vec!["A000045 := proc(n) end".to_string()];
    let text = export_to_markdown(&seq);
    assert!(text.starts_with("# A000045: Fibonacci numbers\n\n"));
    assert!(text.contains("`1,1,2`\n\n"));
    assert!(text.contains("- **Author**: N. J. A. Sloane\n"));
    assert!(text.contains("## Formulas\n\n- a(n) = a(n-1) + a(n-2)\n"));
    assert!(text.contains("## Code\n\n### Maple\n\n```maple\nA000045 := proc(n) end\n```\n\n"));
    assert!(text.contains("**Source**: [A000045](https://oeis.org/A000045)"));
}

#[test]
fn test_export_sequence_dispatch() {
    let seq = sample_sequence();
    assert_eq!(export_sequence(&seq, &ExportFormat::Csv, None), export_to_csv(&seq));
    assert_eq!(export_sequence(&seq, &ExportFormat::Txt, None), export_to_txt(&seq));
}

#[test]
fn test_scroll_offset() {
    // everything fits: no scrolling
    assert_eq!(calculate_scroll_offset(3, 5, 10, 2), 0);
    // selected above the window: scroll up to it
    assert_eq!(calculate_scroll_offset(1, 20, 5, 4), 1);
    // selected below the window: put it on the last visible line
    assert_eq!(calculate_scroll_offset(9, 20, 5, 2), 5);
    // selected visible: keep the current offset
    assert_eq!(calculate_scroll_offset(4, 20, 5, 2), 2);
}

#[test]
fn test_spinner_frames() {
    assert_eq!(spinner_char(0), '|');
    assert_eq!(spinner_char(1), '|');
    assert_eq!(spinner_char(2), '/');
    assert_eq!(spinner_char(4), '-');
    assert_eq!(spinner_char(6), '\\');
    assert_eq!(spinner_char(8), '|');
}

#[test]
fn test_animation_digits() {
    assert_eq!(sequence_digit("123", 0), b'1');
    assert_eq!(sequence_digit("123", 4), b'2');
    assert_eq!(sequence_digit("", 7), b'0');
    assert_eq!(digit_symbol(b'7'), "7");
    assert_eq!(digit_symbol(b'0'), "0");
}

#[test]
fn test_webcam_intervals() {
    assert_eq!(WebcamInterval::Manual.as_duration(), None);
    assert_eq!(WebcamInterval::FiveSeconds.as_duration(), Some(5));
    assert_eq!(WebcamInterval::OneMinute.as_duration(), Some(60));
}

#[test]
fn test_language_codes() {
    assert_eq!(Language::English.code(), "en");
    assert_eq!(Language::from_code("fr"), Some(Language::French));
    assert_eq!(Language::from_code("xx"), None);
    assert_eq!(Language::all().len(), 6);
    for lang in Language::all() {
        assert_eq!(Language::from_code(lang.code()), Some(lang));
    }
}

#[test]
fn test_welcome_animation_modes() {
    assert_eq!(WelcomeAnimationMode::Normal.key(), "normal");
    assert_eq!(WelcomeAnimationMode::from_key("slow"), Some(WelcomeAnimationMode::Slow));
    assert_eq!(WelcomeAnimationMode::from_key("fast"), None);
    for mode in WelcomeAnimationMode::modes() {
        assert_eq!(WelcomeAnimationMode::from_key(mode.key()), Some(mode));
    }
    assert_eq!(WelcomeAnimationMode::Off.label(), "Off");
    assert_eq!(
        WelcomeAnimationMode::Slow.description(),
        "Sequence snake at a calmer pace"
    );
}

#[test]
fn test_user_settings() {
    let mut settings = UserSettings::new();
    assert!(settings.language().is_none());
    assert!(settings.welcome_animation_mode().is_none());

    settings.language = Some("ja".to_string());
    settings.welcome_animation = Some("off".to_string());
    assert_eq!(settings.language(), Some(Language::Japanese));
    assert_eq!(settings.welcome_animation_mode(), Some(WelcomeAnimationMode::Off));

    settings.language = Some("klingon".to_string());
    assert!(settings.language().is_none());
}
