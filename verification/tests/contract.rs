use cw_lockbox::balance::{coins, Coin};
use cw_lockbox::contract::{execute, instantiate, query};
use cw_lockbox::error::ContractError;
use cw_lockbox::msg::{
    BankMsg, BlockInfo, CosmosMsg, Env, ExecuteMsg, InstantiateMsg, LockInfo, MessageInfo,
    QueryMsg, QueryResponse,
};
use cw_lockbox::time::Timestamp;

fn mock_env() -> Env {
    Env { block: BlockInfo { time: Timestamp::from_nanos(1_571_797_419_879_305_533) } }
}

fn mock_info(sender: &str, funds: &[Coin]) -> MessageInfo {
    MessageInfo { sender: sender.to_string(), funds: funds.to_vec() }
}

fn lock_info(res: QueryResponse) -> LockInfo {
    match res {
        QueryResponse::Lock(info) => info,
        _ => panic!("Must return a lock"),
    }
}

#[test]
fn proper_initialization() {
    let msg = InstantiateMsg { max_lock_time: 3600 };
    let info = mock_info("creator", &coins(1000, "earth"));

    // we can just call .unwrap() to assert this was a success
    let (_store, res) = instantiate(mock_env(), info, msg).unwrap();
    assert_eq!(0, res.messages.len());
}

#[test]
fn lock() {
    let msg = InstantiateMsg { max_lock_time: 3600 };
    let info = mock_info("creator", &[]);
    let (mut store, _res) = instantiate(mock_env(), info, msg).unwrap();

    // empty funds
    let info = mock_info("anyone", &[]);
    let msg = ExecuteMsg::Lock { id: "1".into(), expire: Timestamp::from_seconds(10) };
    let res = execute(&mut store, mock_env(), info, msg);
    match res {
        Err(ContractError::EmptyBalance {}) => {}
        _ => panic!("Must return EmptyBalance error"),
    }

    // lower expire
    let info = mock_info("anyone", &coins(2, "token"));
    let msg = ExecuteMsg::Lock { id: "1".into(), expire: Timestamp::from_seconds(10) };
    let mut env = mock_env();
    env.block.time = Timestamp::from_seconds(100);
    let res = execute(&mut store, env.clone(), info.clone(), msg);
    match res {
        Err(ContractError::LowExpired {}) => {}
        _ => panic!("Must return LowExpired error"),
    }

    // high expire
    env.block.time = Timestamp::from_seconds(0);
    let info = mock_info("anyone", &coins(2, "token"));
    let msg = ExecuteMsg::Lock { id: "1".into(), expire: Timestamp::from_seconds(4000) };
    let res = execute(&mut store, env.clone(), info.clone(), msg);
    match res {
        Err(ContractError::HighExpired {}) => {}
        _ => panic!("Must return HighExpired error"),
    }

    // lock funds 1
    let msg = ExecuteMsg::Lock { id: "1".into(), expire: Timestamp::from_seconds(200) };
    let _res = execute(&mut store, env.clone(), info.clone(), msg).unwrap();

    // should exists lock
    let msg = QueryMsg::Lock { address: "anyone".into(), id: "1".into() };
    let res = query(&store, mock_env(), msg).unwrap();
    let value: LockInfo = lock_info(res);
    assert_eq!(0, value.create.seconds());
    assert_eq!(200, value.expire.seconds());
    assert_eq!(false, value.complete);

    // try lock same id
    let msg = ExecuteMsg::Lock { id: "1".into(), expire: Timestamp::from_seconds(200) };
    let res = execute(&mut store, env.clone(), info.clone(), msg);
    match res {
        Err(ContractError::AlreadyInUse {}) => {}
        _ => panic!("Must return AlreadyInUse error"),
    }

    // lock funds 2
    let msg = ExecuteMsg::Lock { id: "2".into(), expire: Timestamp::from_seconds(300) };
    let _res = execute(&mut store, env, info, msg).unwrap();

    // should exists lock
    let msg = QueryMsg::Lock { address: "anyone".into(), id: "2".into() };
    let res = query(&store, mock_env(), msg).unwrap();
    let value: LockInfo = lock_info(res);
    assert_eq!(300, value.expire.seconds());
    assert_eq!(false, value.complete);

    let res = query(&store, mock_env(), QueryMsg::AllLocks { address: "anyone".into() }).unwrap();
    let value = match res {
        QueryResponse::AllLocks(all) => all,
        _ => panic!("Must return all locks"),
    };
    assert_eq!(2, value.locks.len())
}

#[test]
fn unlock() {
    let msg = InstantiateMsg { max_lock_time: 3600 };
    let info = mock_info("creator", &[]);
    let (mut store, _res) = instantiate(mock_env(), info, msg).unwrap();

    // lock funds
    let info = mock_info("anyone", &coins(2, "token"));
    let mut env = mock_env();
    env.block.time = Timestamp::from_seconds(0);
    let msg = ExecuteMsg::Lock { id: "1".into(), expire: Timestamp::from_seconds(400) };
    let _res = execute(&mut store, env, info, msg).unwrap();

    // cannot unlock until expire
    let auth_info = mock_info("anyone", &[]);
    let msg = ExecuteMsg::Unlock { id: "1".into() };
    let mut env = mock_env();
    env.block.time = Timestamp::from_seconds(100);
    let res = execute(&mut store, env.clone(), auth_info, msg);
    match res {
        Err(ContractError::LockNotExpired {}) => {}
        _ => panic!("Must return LockNotExpired error"),
    }

    // unlock funds
    let auth_info = mock_info("anyone", &[]);
    let msg = ExecuteMsg::Unlock { id: "1".into() };
    env.block.time = Timestamp::from_seconds(401);
    let res = execute(&mut store, env, auth_info, msg).unwrap();
    assert_eq!(1, res.messages.len());
    assert_eq!(
        res.messages[0],
        CosmosMsg::Bank(BankMsg::Send { to_address: "anyone".into(), amount: coins(2, "token") })
    );

    // should lock completed
    let msg = QueryMsg::Lock { address: "anyone".into(), id: "1".into() };
    let data = query(&store, mock_env(), msg).unwrap();

    let res: LockInfo = lock_info(data);
    assert_eq!(true, res.complete)
}
