use touch_n_drink::ui::{greeting_alignment, HorizontalAlignment};
use touch_n_drink::error::Error;
use touch_n_drink::telemetry::Event;
use touch_n_drink::ui::flow_outcome;
use touch_n_drink::ui::{error_step, PleaseWait};
use touch_n_drink::wifi::{auth_method, country_code, AuthMethod, UpState};
use touch_n_drink::config::{Config, MAX_CONFIG_SIZE};
use touch_n_drink::error::ErrorKind;
use touch_n_drink::ui::{flow_step, Flow, FlowAction, FlowEvent};
use touch_n_drink::ui::{
    amount_line, article_line, checkout_step, enter_amount_step, greeting, greeting_line, key_3x4,
    key_4x4, no_articles_text, pressed_scancode, select_article_step, success_line, success_step,
    KeyStep,
};

#[test]
fn keypad_keys() {
    let keys: String = (0..12).map(key_3x4).collect();
    assert_eq!(keys, "123456789*0#");
    let keys: String = (0..16).map(key_4x4).collect();
    assert_eq!(keys, "123A456B789C*0#D");
}

#[test]
fn keypad_scan() {
    let none = vec![vec![false; 3]; 4];
    assert_eq!(pressed_scancode(&none, 3), None);
    let mut states = none.clone();
    states[2][1] = true;
    states[3][0] = true;
    assert_eq!(pressed_scancode(&states, 3), Some(7));
    assert_eq!(key_3x4(7), '8');
    states[0][2] = true;
    assert_eq!(pressed_scancode(&states, 3), Some(2));
}

#[test]
fn purchase_prompts() {
    assert_eq!(select_article_step('1', 2), KeyStep::Accept(0));
    assert_eq!(select_article_step('2', 2), KeyStep::Accept(1));
    assert_eq!(select_article_step('3', 2), KeyStep::Ignore);
    assert_eq!(select_article_step('0', 2), KeyStep::Ignore);
    assert_eq!(select_article_step('#', 2), KeyStep::Ignore);
    assert_eq!(select_article_step('*', 2), KeyStep::Cancel);
    assert_eq!(enter_amount_step('9'), KeyStep::Accept(9));
    assert_eq!(enter_amount_step('0'), KeyStep::Ignore);
    assert_eq!(enter_amount_step('*'), KeyStep::Cancel);
    assert_eq!(checkout_step('#'), KeyStep::Accept(()));
    assert_eq!(checkout_step('5'), KeyStep::Ignore);
    assert_eq!(checkout_step('*'), KeyStep::Cancel);
    assert!(success_step('#'));
    assert!(!success_step('*'));
}

#[test]
fn screen_texts() {
    assert_eq!(greeting(0), "Hi");
    assert_eq!(greeting(7), "Olá");
    assert_eq!(greeting(19), "Oi");
    assert_eq!(greeting(20), "Hi");
    assert_eq!(greeting(u32::MAX), greeting(u32::MAX % 20));
    assert_eq!(greeting_line("Moin", "Alice"), "Moin Alice");
    assert_eq!(article_line(0, "Cola"), "1:Cola");
    assert_eq!(article_line(8, "Bier"), "9:Bier");
    assert_eq!(amount_line(3, "Cola"), "3x Cola");
    assert_eq!(success_line(3), "3 Getränke genehmigt");
    assert_eq!(no_articles_text(), "Keine Artikel\nverfügbar");
}

#[test]
fn config_defaults() {
    let config = Config::default();
    assert_eq!(config.wifi_country, None);
    assert!(config.wifi_ssid.is_empty());
    assert!(config.vf_article_ids.is_empty());
    assert_eq!(config.vf_cid, None);
    assert_eq!(Config::read_size(4096), 4096);
    assert_eq!(Config::read_size(65536), MAX_CONFIG_SIZE);
    let mut parsed = Config::default();
    parsed.vf_cid = Some(5);
    assert_eq!(Config::or_default(Some(parsed)).vf_cid, Some(5));
    assert_eq!(Config::or_default(None).vf_cid, None);
}

#[test]
fn purchase_flow_to_success() {
    let (s, a) = flow_step(Flow::SelectArticle, FlowEvent::Key('5'), 2);
    assert_eq!(s, Flow::SelectArticle);
    assert!(matches!(a, FlowAction::Wait));
    let (s, a) = flow_step(s, FlowEvent::Key('2'), 2);
    assert_eq!(s, Flow::EnterAmount { article: 1 });
    assert!(matches!(a, FlowAction::Prompt));
    let (s, _) = flow_step(s, FlowEvent::Key('3'), 2);
    assert_eq!(s, Flow::Checkout { article: 1, amount: 3 });
    let (s, a) = flow_step(s, FlowEvent::Key('1'), 2);
    assert!(matches!(a, FlowAction::Wait));
    let (s, a) = flow_step(s, FlowEvent::Key('#'), 2);
    assert_eq!(s, Flow::Purchasing { article: 1, amount: 3 });
    assert!(matches!(a, FlowAction::Purchase { article: 1, amount: 3 }));
    let (s, a) = flow_step(s, FlowEvent::Purchased(None), 2);
    assert_eq!(s, Flow::Success { amount: 3 });
    assert!(matches!(a, FlowAction::Prompt));
    let (s, a) = flow_step(s, FlowEvent::Key('*'), 2);
    assert!(matches!(a, FlowAction::Wait));
    let (s, a) = flow_step(s, FlowEvent::Key('#'), 2);
    assert_eq!(s, Flow::Done);
    assert!(matches!(a, FlowAction::Finish(None)));
}

#[test]
fn purchase_flow_cancel_timeout_and_failure() {
    let (s, a) = flow_step(Flow::EnterAmount { article: 0 }, FlowEvent::Key('*'), 1);
    assert_eq!(s, Flow::Done);
    assert!(matches!(a, FlowAction::Finish(Some(ErrorKind::Cancel))));
    let (_, a) = flow_step(Flow::Checkout { article: 0, amount: 1 }, FlowEvent::Timeout, 1);
    assert!(matches!(a, FlowAction::Finish(Some(ErrorKind::UserTimeout))));
    let (s, a) = flow_step(
        Flow::Purchasing { article: 0, amount: 1 },
        FlowEvent::Purchased(Some(ErrorKind::NoNetwork)),
        1,
    );
    assert_eq!(s, Flow::Done);
    assert!(matches!(a, FlowAction::Finish(Some(ErrorKind::NoNetwork))));
    // No articles: no digit selects anything
    let (s, _) = flow_step(Flow::SelectArticle, FlowEvent::Key('1'), 0);
    assert_eq!(s, Flow::SelectArticle);
}

#[test]
fn waiting_and_error_screens() {
    assert_eq!(PleaseWait::Purchasing.title(), "Stand By...");
    assert_eq!(PleaseWait::Purchasing.message(), "Zahlung wird\nbearbeitet");
    assert_eq!(PleaseWait::SubmittingTelemetry.message(), "Daten-Übertragung");
    assert!(error_step('*'));
    assert!(!error_step('#'));
}

#[test]
fn wifi_settings() {
    assert_eq!(country_code(None), *b"01");
    assert_eq!(country_code(Some(*b"DE")), *b"DE");
    assert_eq!(auth_method(""), AuthMethod::Open);
    assert_eq!(auth_method("secret"), AuthMethod::Wpa2Personal);
    let mut state = UpState::new();
    assert_eq!(state.observe(false), None);
    assert_eq!(state.observe(true), Some(true));
    assert_eq!(state.observe(true), None);
    assert_eq!(state.observe(false), Some(false));
}

#[test]
fn flow_outcomes() {
    assert!(flow_outcome(Ok(())).is_none());
    assert!(flow_outcome(Err(Error::from_kind(ErrorKind::Cancel))).is_none());
    let timeout: Result<(), Error> = Error::try_with(5, Err(Error::from_kind(ErrorKind::UserTimeout)));
    assert!(flow_outcome(timeout).is_none());
    match flow_outcome(Err(Error::from_kind(ErrorKind::NoNetwork))) {
        Some((Event::Error(None, m), false)) => assert_eq!(m, "No network connection"),
        other => panic!("unexpected {:?}", other),
    }
    let failed: Result<(), Error> = Error::try_with(5, Err(Error::from_kind(ErrorKind::ArticleNotFound)));
    match flow_outcome(failed) {
        Some((Event::Error(Some(5), m), true)) => assert_eq!(m, "Article not found"),
        other => panic!("unexpected {:?}", other),
    }
}

#[test]
fn greeting_alignment_by_width() {
    // 10 bytes of 8 pixels fit into 80 pixels
    assert_eq!(greeting_alignment("Hallo Anna", 8, 80), HorizontalAlignment::Center);
    assert_eq!(greeting_alignment("Hallo Annas", 8, 80), HorizontalAlignment::Left);
    // Width counts bytes: "ä" takes two
    assert_eq!(greeting_alignment("Hallo Jörg", 8, 80), HorizontalAlignment::Left);
}
