use titans::gui::{Colour, ForeColour, Frames, Information, Information2, LogLevel, TextAttribute};

#[test]
fn look_of_each_style() {
    let cases = [
        (Colour::Error, TextAttribute::Italic, ForeColour::DarkRed),
        (Colour::Output, TextAttribute::Bold, ForeColour::DarkGreen),
        (Colour::Order, TextAttribute::RapidBlink, ForeColour::DarkYellow),
        (Colour::Monitoring, TextAttribute::Underlined, ForeColour::DarkCyan),
        (Colour::Function, TextAttribute::Reverse, ForeColour::DarkGrey),
        (Colour::Debug, TextAttribute::Reverse, ForeColour::Black),
    ];
    for (c, text, frames) in cases {
        assert_eq!(c.view(), Frames { text, frames });
    }
}

#[test]
fn log_level_of_each_style() {
    assert_eq!(Colour::Error.log_level(), Some(LogLevel::Error));
    assert_eq!(Colour::Monitoring.log_level(), Some(LogLevel::Info));
    assert_eq!(Colour::Debug.log_level(), Some(LogLevel::Debug));
    assert_eq!(Colour::Output.log_level(), None);
    assert_eq!(Colour::Order.log_level(), None);
    assert_eq!(Colour::Function.log_level(), None);
}

#[test]
fn fixed_size_table() {
    let t = Colour::Output.table(Information {
        list: ["Node", "PossibleError"],
        data: [["n1", "TimeOut"], ["n1", "FileConfigurationError"]],
    });
    let header: Vec<&str> = t.header.iter().map(|c| c.text.as_str()).collect();
    assert_eq!(header, vec!["Node", "PossibleError"]);
    assert_eq!(t.rows.len(), 2);
    assert_eq!(t.rows[1][1].text, "FileConfigurationError");
    assert!(t.rows.iter().flatten().chain(t.header.iter()).all(|c| {
        c.attribute == TextAttribute::Bold && c.colour == ForeColour::DarkGreen
    }));
}

#[test]
fn table_without_rows() {
    let t = Colour::Error.table(Information::<1, 0> { list: ["PUT_UP"], data: [] });
    assert_eq!(t.header.len(), 1);
    assert_eq!(t.header[0].attribute, TextAttribute::Italic);
    assert!(t.rows.is_empty());
}

#[test]
fn any_size_table() {
    let t = Colour::Monitoring.table2(Information2 {
        list: vec!["Name", "Frequency", "Employ"],
        data: vec![
            vec![String::from("CPU1"), String::from("To[1]Refresh"), String::from("3.5")],
            vec![String::from("CPU2")],
        ],
    });
    assert_eq!(t.header.len(), 3);
    assert_eq!(t.header[2].text, "Employ");
    assert_eq!(t.rows.len(), 2);
    assert_eq!(t.rows[0][1].text, "To[1]Refresh");
    assert_eq!(t.rows[1].len(), 1);
    assert_eq!(t.rows[1][0].colour, ForeColour::DarkCyan);
    assert_eq!(t.rows[1][0].attribute, TextAttribute::Underlined);
}
